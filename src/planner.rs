//! Batch planning: how many pages go to one rasterizer invocation, how the
//! missing pages are cut into batches, and how a batch is written as ranges.

use vstd::prelude::*;
use crate::text::{all_digits, decimal, digits_value, is_digit, push_decimal};

verus! {

pub const MIN_BATCH_SIZE: usize = 5;

pub const MAX_BATCH_SIZE: usize = 20;

/// Processor count assumed when the host does not report one.
pub const FALLBACK_CPU_COUNT: u32 = 4;

/// Memory assumed when the host does not report it, in KiB: 8 GiB in all.
pub const FALLBACK_TOTAL_MEMORY_KB: u64 = 8388608;

/// Memory assumed free when the host does not report it, in KiB: 4 GiB.
pub const FALLBACK_AVAILABLE_MEMORY_KB: u64 = 4194304;

/// The memory factor as a fraction `(numerator, denominator)`, for `total > 0`.
/// Above a quarter of the total free, the factor is `1 + 2 * available / total`;
/// at or below it, `1/2 + 1/2 * available / (total / 4)`.
pub open spec fn memory_factor(total: nat, available: nat) -> (int, int) {
    if 4 * available > total {
        ((total + 2 * available) as int, total as int)
    } else {
        ((total + 4 * available) as int, (2 * total) as int)
    }
}

/// `cpu * numerator / denominator`, rounded to the nearest integer, halves up.
pub open spec fn rounded_parallelism(cpu: nat, total: nat, available: nat) -> int {
    let (num, den) = memory_factor(total, available);
    (2 * cpu * num + den) / (2 * den)
}

pub open spec fn clamp_batch_size(raw: int) -> nat {
    if raw < MIN_BATCH_SIZE {
        MIN_BATCH_SIZE as nat
    } else if raw > MAX_BATCH_SIZE {
        MAX_BATCH_SIZE as nat
    } else {
        raw as nat
    }
}

/// The batch size for a host with `cpu` processors and `total` memory of which
/// `available` is free (both in one unit). A host that reports no total memory
/// but some free memory counts as unbounded in memory.
pub open spec fn adaptive_batch_size(cpu: nat, total: nat, available: nat) -> nat {
    if total == 0 {
        if cpu > 0 && available > 0 {
            MAX_BATCH_SIZE as nat
        } else {
            MIN_BATCH_SIZE as nat
        }
    } else {
        clamp_batch_size(rounded_parallelism(cpu, total, available))
    }
}

/// The batch size for the given processor count and memory figures.
pub fn batch_size_for(cpu_count: u32, total_memory: u64, available_memory: u64) -> (r: usize)
    ensures
        r == adaptive_batch_size(cpu_count as nat, total_memory as nat, available_memory as nat),
        MIN_BATCH_SIZE <= r <= MAX_BATCH_SIZE,
{
    if total_memory == 0 {
        if cpu_count > 0 && available_memory > 0 {
            return MAX_BATCH_SIZE;
        } else {
            return MIN_BATCH_SIZE;
        }
    }
    let total = total_memory as u128;
    let available = available_memory as u128;
    let cpu = cpu_count as u128;
    let (num, den): (u128, u128) = if 4 * available > total {
        (total + 2 * available, total)
    } else {
        (total + 4 * available, 2 * total)
    };
    assert(num < 0x10_0000_0000_0000_0000);
    assert(2 * cpu * num < 0x1_0000_0000_0000_0000_0000_0000_0000) by (nonlinear_arith)
        requires
            cpu < 0x1_0000_0000,
            num < 0x10_0000_0000_0000_0000,
    ;
    let raw = (2 * cpu * num + den) / (2 * den);
    if raw < MIN_BATCH_SIZE as u128 {
        MIN_BATCH_SIZE
    } else if raw > MAX_BATCH_SIZE as u128 {
        MAX_BATCH_SIZE
    } else {
        raw as usize
    }
}

/// The host's processor count as `sys_info::cpu_num` reports it; `None` where it
/// fails. What it returns depends on the machine: nothing is promised of it.
#[verifier::external_body]
fn host_cpu_count() -> (r: Option<u32>) {
    sys_info::cpu_num().ok()
}

/// The host's total and available physical memory in KiB, as `sys_info::mem_info`
/// reports them (its `total` and `avail` fields); `None` where it fails. What it
/// returns depends on the machine: nothing is promised of it.
#[verifier::external_body]
fn host_memory_kb() -> (r: Option<(u64, u64)>) {
    sys_info::mem_info().ok().map(|m| (m.total, m.avail))
}

/// The batch size for what the host reported: its processor count, and its total
/// and available memory. Whatever it could not report takes the fallback figures.
pub fn batch_size_from_host(cpu_count: Option<u32>, memory: Option<(u64, u64)>) -> (r: usize)
    ensures
        r == adaptive_batch_size(
            match cpu_count {
                Some(c) => c as nat,
                None => FALLBACK_CPU_COUNT as nat,
            },
            match memory {
                Some(m) => m.0 as nat,
                None => FALLBACK_TOTAL_MEMORY_KB as nat,
            },
            match memory {
                Some(m) => m.1 as nat,
                None => FALLBACK_AVAILABLE_MEMORY_KB as nat,
            },
        ),
        MIN_BATCH_SIZE <= r <= MAX_BATCH_SIZE,
{
    let cpu = match cpu_count {
        Some(c) => c,
        None => FALLBACK_CPU_COUNT,
    };
    let (total, available) = match memory {
        Some(m) => m,
        None => (FALLBACK_TOTAL_MEMORY_KB, FALLBACK_AVAILABLE_MEMORY_KB),
    };
    batch_size_for(cpu, total, available)
}

/// The batch size for this host, from its processor count and memory, with the
/// fallback figures for whatever the host does not report; see
/// `batch_size_from_host`.
pub fn get_adaptive_batch_size() -> (r: usize)
    ensures
        MIN_BATCH_SIZE <= r <= MAX_BATCH_SIZE,
{
    batch_size_from_host(host_cpu_count(), host_memory_kb())
}

/// Whatever the processor count and memory figures, zero included, the batch
/// size stays within its bounds.
pub proof fn lemma_batch_size_in_bounds(cpu: nat, total: nat, available: nat)
    ensures
        MIN_BATCH_SIZE <= adaptive_batch_size(cpu, total, available) <= MAX_BATCH_SIZE,
{
}

/// The `i`-th batch of `pages` cut into batches of `size`: the last may be shorter.
pub open spec fn batch_of(pages: Seq<usize>, size: nat, i: int) -> Seq<usize> {
    let end = if (i + 1) * size < pages.len() {
        (i + 1) * size
    } else {
        pages.len() as int
    };
    pages.subrange(i * size, end)
}

/// The number of batches of `size` that `n` pages make.
pub open spec fn batch_count(n: nat, size: nat) -> nat {
    ((n + size - 1) / (size as int)) as nat
}

/// `batches` cuts `pages` into consecutive batches of `size`, in order.
pub open spec fn is_batch_plan(pages: Seq<usize>, size: nat, batches: Seq<Seq<usize>>) -> bool {
    &&& batches.len() == batch_count(pages.len(), size)
    &&& forall|i: int| 0 <= i < batches.len() ==> #[trigger] batches[i] == batch_of(pages, size, i)
}

/// Cuts `pages` into consecutive batches of `batch_size` pages, keeping their order.
pub fn plan_batches(pages: &Vec<usize>, batch_size: usize) -> (r: Vec<Vec<usize>>)
    requires
        batch_size > 0,
    ensures
        is_batch_plan(pages@, batch_size as nat, r@.map_values(|b: Vec<usize>| b@)),
{
    let n = pages.len();
    let mut batches: Vec<Vec<usize>> = Vec::new();
    let mut start: usize = 0;
    let ghost size = batch_size as nat;
    proof {
        if n == 0 {
            lemma_batch_count(0, size, -1);
        }
        assert(batches@.len() == 0);
        assert(batches@.len() * size == 0) by (nonlinear_arith)
            requires
                batches@.len() == 0,
        ;
    }
    while start < n
        invariant
            n == pages@.len(),
            size == batch_size,
            batch_size > 0,
            start <= n,
            start < n ==> start == batches@.len() * size,
            start == n ==> batches@.len() == batch_count(n as nat, size),
            forall|i: int| 0 <= i < batches@.len() ==> #[trigger] batches@[i]@ == batch_of(pages@, size, i),
        decreases n - start,
    {
        let end = if n - start > batch_size {
            start + batch_size
        } else {
            n
        };
        let mut batch: Vec<usize> = Vec::new();
        let mut j: usize = start;
        while j < end
            invariant
                start <= j <= end <= n,
                n == pages@.len(),
                batch@ == pages@.subrange(start as int, j as int),
            decreases end - j,
        {
            batch.push(pages[j]);
            j = j + 1;
        }
        let ghost k = batches@.len() as int;
        proof {
            assert((k + 1) * size == k * size + size) by (nonlinear_arith);
            assert(batch@ == batch_of(pages@, size, k));
        }
        batches.push(batch);
        proof {
            if end == n {
                lemma_batch_count(n as nat, size, k);
            }
        }
        start = end;
    }
    proof {
        assert(batches@.map_values(|b: Vec<usize>| b@).len() == batches@.len());
    }
    batches
}

pub(crate) proof fn lemma_batch_count(n: nat, size: nat, k: int)
    requires
        size > 0,
        k >= -1,
        k * size < n || (k == -1 && n == 0),
        n <= (k + 1) * size,
    ensures
        batch_count(n, size) == k + 1,
{
    let x = n + size - 1;
    assert((k + 1) * size == k * size + size) by (nonlinear_arith);
    assert(x == (k + 1) * size + (n - 1 - k * size)) by (nonlinear_arith)
        requires
            x == n + size - 1,
    ;
    if k == -1 {
        assert(k * size == -size) by (nonlinear_arith)
            requires
                k == -1,
        ;
    }
    assert(0 <= n - 1 - k * size);
    assert(n - 1 - k * size < size);
    vstd::arithmetic::div_mod::lemma_fundamental_div_mod_converse(
        x,
        size as int,
        k + 1,
        n - 1 - k * size,
    );
}

/// The runs of consecutive integers in `pages`, in order of appearance: each run
/// is a closed range `(start, end)`, and a page one past the end of the run
/// before it extends that run.
pub open spec fn runs(pages: Seq<usize>) -> Seq<(usize, usize)>
    decreases pages.len(),
{
    if pages.len() == 0 {
        seq![]
    } else {
        let before = runs(pages.drop_last());
        let page = pages.last();
        if before.len() > 0 && page == before.last().1 + 1 {
            before.update(before.len() - 1, (before.last().0, page))
        } else {
            before.push((page, page))
        }
    }
}

/// The pages a range stands for.
pub open spec fn range_pages(range: (usize, usize)) -> Seq<usize> {
    Seq::new((range.1 - range.0 + 1) as nat, |i: int| (range.0 + i) as usize)
}

/// The pages a list of ranges stands for, range after range.
pub open spec fn expand_ranges(ranges: Seq<(usize, usize)>) -> Seq<usize>
    decreases ranges.len(),
{
    if ranges.len() == 0 {
        seq![]
    } else {
        expand_ranges(ranges.drop_last()) + range_pages(ranges.last())
    }
}

/// One range in the rasterizer's zero-based page syntax: `a` for a single page,
/// `a-b` for several.
pub open spec fn range_text(range: (usize, usize)) -> Seq<char> {
    if range.0 == range.1 {
        decimal((range.0 - 1) as nat)
    } else {
        decimal((range.0 - 1) as nat) + seq!['-'] + decimal((range.1 - 1) as nat)
    }
}

/// Ranges in the rasterizer's page syntax, separated by commas.
pub open spec fn ranges_text(ranges: Seq<(usize, usize)>) -> Seq<char>
    decreases ranges.len(),
{
    if ranges.len() == 0 {
        seq![]
    } else if ranges.len() == 1 {
        range_text(ranges[0])
    } else {
        ranges_text(ranges.drop_last()) + seq![','] + range_text(ranges.last())
    }
}

/// The runs of consecutive page numbers in `pages`.
pub fn page_ranges(pages: &[usize]) -> (r: Vec<(usize, usize)>)
    ensures
        r@ == runs(pages@),
{
    let mut ranges: Vec<(usize, usize)> = Vec::new();
    let mut i: usize = 0;
    while i < pages.len()
        invariant
            i <= pages@.len(),
            ranges@ == runs(pages@.subrange(0, i as int)),
        decreases pages@.len() - i,
    {
        let page = pages[i];
        let n = ranges.len();
        proof {
            let s = pages@.subrange(0, i + 1);
            assert(s.drop_last() =~= pages@.subrange(0, i as int));
            assert(s.last() == page);
        }
        if n > 0 && ranges[n - 1].1 < usize::MAX && page == ranges[n - 1].1 + 1 {
            let first = ranges[n - 1].0;
            ranges.set(n - 1, (first, page));
        } else {
            ranges.push((page, page));
        }
        i = i + 1;
    }
    proof {
        assert(pages@.subrange(0, pages@.len() as int) =~= pages@);
    }
    ranges
}

/// The page argument for one rasterizer invocation over `pages`: its runs of
/// consecutive pages, zero-based, as `a` or `a-b`, separated by commas.
pub fn create_page_spec(pages: &[usize]) -> (r: String)
    requires
        forall|i: int| 0 <= i < pages@.len() ==> pages@[i] >= 1,
    ensures
        r@ == ranges_text(runs(pages@)),
{
    let ranges = page_ranges(pages);
    proof {
        lemma_runs_ordered(pages@);
    }
    let mut text = String::new();
    let mut i: usize = 0;
    proof {
        reveal_strlit(",");
        reveal_strlit("-");
    }
    while i < ranges.len()
        invariant
            i <= ranges@.len(),
            forall|k: int| 0 <= k < ranges@.len() ==> ranges@[k].0 >= 1 && ranges@[k].0 <= ranges@[k].1,
            text@ == ranges_text(ranges@.subrange(0, i as int)),
            ","@ == seq![','],
            "-"@ == seq!['-'],
        decreases ranges@.len() - i,
    {
        let (start, end) = ranges[i];
        let ghost before = text@;
        if i > 0 {
            text.append(",");
        }
        push_decimal(&mut text, start - 1);
        if start != end {
            text.append("-");
            push_decimal(&mut text, end - 1);
        }
        proof {
            let s = ranges@.subrange(0, i + 1);
            assert(s.drop_last() =~= ranges@.subrange(0, i as int));
            assert(s.last() == (start, end));
            if i == 0 {
                assert(text@ =~= range_text((start, end)));
            } else {
                assert(text@ =~= before + seq![','] + range_text((start, end)));
            }
        }
        i = i + 1;
    }
    proof {
        assert(ranges@.subrange(0, ranges@.len() as int) =~= ranges@);
    }
    text
}

/// Every run holds at least one page, and runs of positive pages start at a
/// positive page.
proof fn lemma_runs_ordered(pages: Seq<usize>)
    ensures
        forall|k: int| 0 <= k < runs(pages).len() ==> #[trigger] runs(pages)[k].0 <= runs(pages)[k].1,
        (forall|i: int| 0 <= i < pages.len() ==> pages[i] >= 1) ==> forall|k: int|
            0 <= k < runs(pages).len() ==> #[trigger] runs(pages)[k].0 >= 1,
    decreases pages.len(),
{
    if pages.len() > 0 {
        let init = pages.drop_last();
        lemma_runs_ordered(init);
        let before = runs(init);
        let now = runs(pages);
        let page = pages.last();
        if (forall|i: int| 0 <= i < pages.len() ==> pages[i] >= 1) {
            assert(forall|i: int| 0 <= i < init.len() ==> init[i] == pages[i]);
            assert(page == pages[pages.len() - 1]);
        }
        if before.len() > 0 && page == before.last().1 + 1 {
            assert(now == before.update(before.len() - 1, (before.last().0, page)));
            assert forall|k: int| 0 <= k < now.len() implies #[trigger] now[k].0 <= now[k].1 by {
                if k < now.len() - 1 {
                    assert(now[k] == before[k]);
                }
            }
        } else {
            assert(now == before.push((page, page)));
            assert forall|k: int| 0 <= k < now.len() implies #[trigger] now[k].0 <= now[k].1 by {
                if k < now.len() - 1 {
                    assert(now[k] == before[k]);
                }
            }
        }
    }
}

/// Range compression loses nothing: expanding the runs of any list of pages gives
/// the list back.
pub proof fn lemma_runs_expand(pages: Seq<usize>)
    ensures
        expand_ranges(runs(pages)) == pages,
    decreases pages.len(),
{
    if pages.len() > 0 {
        let init = pages.drop_last();
        lemma_runs_expand(init);
        lemma_runs_ordered(init);
        let before = runs(init);
        let page = pages.last();
        if before.len() > 0 && page == before.last().1 + 1 {
            let last = before.last();
            let rest = before.drop_last();
            let now = runs(pages);
            assert(now.drop_last() =~= rest);
            assert(now.last() == (last.0, page));
            assert(expand_ranges(before) == expand_ranges(rest) + range_pages(last));
            assert(range_pages((last.0, page)) =~= range_pages(last).push(page));
            assert(pages =~= init.push(page));
        } else {
            let now = runs(pages);
            assert(now.drop_last() =~= before);
            assert(range_pages((page, page)) =~= seq![page]);
            assert(pages =~= init.push(page));
        }
    }
}

/// Every batch starts before the end of the pages.
pub(crate) proof fn lemma_batch_starts_inside(n: nat, size: nat, k: nat)
    requires
        size > 0,
        k < batch_count(n, size),
    ensures
        k * size < n,
{
    let x = n + size - 1;
    vstd::arithmetic::div_mod::lemma_fundamental_div_mod(x, size as int);
    let q = x / (size as int);
    assert(q >= k + 1);
    assert(size * q >= size * (k + 1)) by (nonlinear_arith)
        requires
            q >= k + 1,
            size > 0,
    ;
    assert(size * (k + 1) == k * size + size) by (nonlinear_arith);
    assert(x % (size as int) >= 0);
}

/// Where `c` last occurs in `s`; -1 where it does not.
pub open spec fn last_index(s: Seq<char>, c: char) -> int
    decreases s.len(),
{
    if s.len() == 0 {
        -1
    } else if s.last() == c {
        s.len() - 1
    } else {
        last_index(s.drop_last(), c)
    }
}

/// The one-based pages one item of the rasterizer's page syntax stands for:
/// `a` is page `a + 1`, `a-b` the pages `a + 1` to `b + 1`.
pub open spec fn decode_range_item(item: Seq<char>) -> Seq<int> {
    let k = last_index(item, '-');
    if k < 0 {
        seq![digits_value(item) + 1int]
    } else {
        let a = digits_value(item.subrange(0, k));
        let b = digits_value(item.subrange(k + 1, item.len() as int));
        Seq::new((b - a + 1) as nat, |i: int| a + 1 + i)
    }
}

/// The one-based pages a text in the rasterizer's page syntax stands for, item
/// after item.
pub open spec fn decode_page_spec(text: Seq<char>) -> Seq<int>
    decreases text.len(),
{
    if text.len() == 0 {
        seq![]
    } else {
        let k = last_index(text, ',');
        if 0 <= k < text.len() {
            decode_page_spec(text.subrange(0, k)) + decode_range_item(text.subrange(k + 1, text.len() as int))
        } else {
            decode_range_item(text)
        }
    }
}

/// Range compression is a faithful encoding: decoding the page argument of any
/// list of positive pages (expanding each range and counting from one again)
/// gives the list back.
pub proof fn lemma_page_spec_decodes(pages: Seq<usize>)
    requires
        forall|i: int| 0 <= i < pages.len() ==> pages[i] >= 1,
    ensures
        decode_page_spec(ranges_text(runs(pages))) == pages.map_values(|p: usize| p as int),
{
    lemma_runs_ordered(pages);
    lemma_runs_expand(pages);
    lemma_ranges_text_decodes(runs(pages));
}

proof fn lemma_ranges_text_decodes(ranges: Seq<(usize, usize)>)
    requires
        forall|k: int| 0 <= k < ranges.len() ==> #[trigger] ranges[k].0 >= 1 && ranges[k].0 <= ranges[k].1,
    ensures
        decode_page_spec(ranges_text(ranges)) == expand_ranges(ranges).map_values(|p: usize| p as int),
    decreases ranges.len(),
{
    if ranges.len() == 0 {
        assert(expand_ranges(ranges).map_values(|p: usize| p as int) =~= seq![]);
    } else {
        let init = ranges.drop_last();
        let last = ranges.last();
        assert(ranges[ranges.len() - 1] == last);
        let item = range_text(last);
        lemma_range_text_shape(last);
        let f = |p: usize| p as int;
        assert(expand_ranges(ranges) == expand_ranges(init) + range_pages(last));
        assert(expand_ranges(ranges).map_values(f) =~= expand_ranges(init).map_values(f) + range_pages(last).map_values(f));
        if ranges.len() == 1 {
            assert(init =~= Seq::<(usize, usize)>::empty());
            assert(expand_ranges(init).map_values(f) =~= seq![]);
            lemma_last_index_absent(item, ',');
            assert(ranges_text(ranges) == item);
        } else {
            assert forall|k: int| 0 <= k < init.len() implies #[trigger] init[k].0 >= 1 && init[k].0 <= init[k].1 by {
                assert(init[k] == ranges[k]);
            }
            lemma_ranges_text_decodes(init);
            let before = ranges_text(init);
            let text = ranges_text(ranges);
            assert(text == before + seq![','] + item);
            lemma_last_index_split(before, item, ',');
            assert(text.subrange(0, before.len() as int) =~= before);
            assert(text.subrange(before.len() as int + 1, text.len() as int) =~= item);
        }
    }
}

/// The item for a range is digits, or digits, `-` and digits; it decodes to the
/// range's pages.
proof fn lemma_range_text_shape(range: (usize, usize))
    requires
        1 <= range.0 <= range.1,
    ensures
        range_text(range).len() > 0,
        forall|i: int| 0 <= i < range_text(range).len() ==> #[trigger] range_text(range)[i] != ',',
        decode_range_item(range_text(range)) == range_pages(range).map_values(|p: usize| p as int),
{
    let a = (range.0 - 1) as nat;
    let b = (range.1 - 1) as nat;
    lemma_decimal_digits(a);
    lemma_decimal_digits(b);
    let da = decimal(a);
    let db = decimal(b);
    let item = range_text(range);
    let f = |p: usize| p as int;
    if range.0 == range.1 {
        assert(item == da);
        assert forall|i: int| 0 <= i < item.len() implies #[trigger] item[i] != ',' && item[i] != '-' by {
            assert(is_digit(da[i]));
        }
        lemma_last_index_absent(item, '-');
        assert(range_pages(range).map_values(f) =~= seq![a + 1int]);
    } else {
        assert(item == da + seq!['-'] + db);
        assert forall|i: int| 0 <= i < item.len() implies #[trigger] item[i] != ',' by {
            if i < da.len() {
                assert(is_digit(da[i]));
            } else if i > da.len() {
                assert(item[i] == db[i - da.len() - 1]);
                assert(is_digit(db[i - da.len() - 1]));
            }
        }
        assert forall|i: int| 0 <= i < db.len() implies #[trigger] db[i] != '-' by {
            assert(is_digit(db[i]));
        }
        lemma_last_index_split(da, db, '-');
        assert(item.subrange(0, da.len() as int) =~= da);
        assert(item.subrange(da.len() as int + 1, item.len() as int) =~= db);
        assert(range_pages(range).map_values(f) =~= Seq::new((b - a + 1) as nat, |i: int| a + 1 + i));
    }
}

/// The decimal text of `n` is a non-empty run of digits worth `n`.
proof fn lemma_decimal_digits(n: nat)
    ensures
        decimal(n).len() > 0,
        all_digits(decimal(n)),
        digits_value(decimal(n)) == n,
    decreases n,
{
    if n >= 10 {
        lemma_decimal_digits(n / 10);
        vstd::arithmetic::div_mod::lemma_fundamental_div_mod(n as int, 10);
        let s = decimal(n);
        assert(s.last() == crate::text::digit_char(n % 10));
        assert(crate::text::char_digit(s.last()) == n % 10);
        assert((n / 10) * 10 == 10 * (n / 10)) by (nonlinear_arith);
        assert(s.drop_last() =~= decimal(n / 10));
        assert forall|i: int| 0 <= i < s.len() implies is_digit(#[trigger] s[i]) by {
            if i < s.len() - 1 {
                assert(s[i] == decimal(n / 10)[i]);
            }
        }
    } else {
        assert(decimal(n).drop_last() =~= Seq::<char>::empty());
        assert(digits_value(Seq::<char>::empty()) == 0);
        assert(crate::text::char_digit(crate::text::digit_char(n)) == n);
    }
}

/// A character that does not occur has no last occurrence.
proof fn lemma_last_index_absent(s: Seq<char>, c: char)
    requires
        forall|i: int| 0 <= i < s.len() ==> #[trigger] s[i] != c,
    ensures
        last_index(s, c) == -1,
    decreases s.len(),
{
    if s.len() > 0 {
        assert(s[s.len() - 1] != c);
        lemma_last_index_absent(s.drop_last(), c);
    }
}

/// The last `c` of `a + [c] + b`, where `b` holds none, is the one between them.
proof fn lemma_last_index_split(a: Seq<char>, b: Seq<char>, c: char)
    requires
        forall|i: int| 0 <= i < b.len() ==> #[trigger] b[i] != c,
    ensures
        last_index(a + seq![c] + b, c) == a.len(),
    decreases b.len(),
{
    let s = a + seq![c] + b;
    if b.len() == 0 {
        assert(s.last() == c);
    } else {
        assert(s.last() == b.last());
        assert(b[b.len() - 1] != c);
        assert(s.drop_last() =~= a + seq![c] + b.drop_last());
        lemma_last_index_split(a, b.drop_last(), c);
    }
}

} // verus!
