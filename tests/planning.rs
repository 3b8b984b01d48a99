use page_extractor::inventory::{get_missing_pages, stored_page_index};
use page_extractor::planner::{
    batch_size_for, batch_size_from_host, create_page_spec, get_adaptive_batch_size, page_ranges, plan_batches, MAX_BATCH_SIZE,
    MIN_BATCH_SIZE,
};
use page_extractor::progress::{estimate_seconds_remaining, ProgressState};
use page_extractor::rasterizer::rasterizer_args;
use page_extractor::text::{decimal_string, join_numbers, join_path, parse_unsigned_decimal};

fn names(list: &[&str]) -> Vec<String> {
    list.iter().map(|s| s.to_string()).collect()
}

#[test]
fn decimal_text_of_numbers() {
    assert_eq!(decimal_string(0), "0");
    assert_eq!(decimal_string(7), "7");
    assert_eq!(decimal_string(1234), "1234");
    assert_eq!(decimal_string(usize::MAX), usize::MAX.to_string());
}

#[test]
fn unsigned_parsing_follows_from_str() {
    assert_eq!(parse_unsigned_decimal("12"), Some(12));
    assert_eq!(parse_unsigned_decimal("+12"), Some(12));
    assert_eq!(parse_unsigned_decimal("007"), Some(7));
    assert_eq!(parse_unsigned_decimal(""), None);
    assert_eq!(parse_unsigned_decimal("+"), None);
    assert_eq!(parse_unsigned_decimal("-1"), None);
    assert_eq!(parse_unsigned_decimal("1a"), None);
    assert_eq!(parse_unsigned_decimal(" 1"), None);
    assert_eq!(parse_unsigned_decimal(&usize::MAX.to_string()), Some(usize::MAX));
    let too_big = format!("{}0", usize::MAX);
    assert_eq!(parse_unsigned_decimal(&too_big), None);
}

#[test]
fn joining_numbers_and_paths() {
    assert_eq!(join_numbers(&vec![1, 2, 30], "-"), "1-2-30");
    assert_eq!(join_numbers(&vec![], ","), "");
    assert_eq!(join_path("out", "1.webp"), "out/1.webp");
    assert_eq!(join_path("out/", "1.webp"), "out/1.webp");
    assert_eq!(join_path("", "1.webp"), "1.webp");
}

#[test]
fn stored_file_names() {
    assert_eq!(stored_page_index("0.webp"), Some(0));
    assert_eq!(stored_page_index("12.webp"), Some(12));
    assert_eq!(stored_page_index("+3.webp"), Some(3));
    assert_eq!(stored_page_index("03.webp"), Some(3));
    assert_eq!(stored_page_index(".webp"), None);
    assert_eq!(stored_page_index("a.webp"), None);
    assert_eq!(stored_page_index("3.png"), None);
    assert_eq!(stored_page_index("3.webp.bak"), None);
    assert_eq!(stored_page_index("index-2.webp"), None);
    assert_eq!(stored_page_index("webp"), None);
}

#[test]
fn inventory_of_a_fresh_directory() {
    let (missing, present) = get_missing_pages(&vec![], 4);
    assert_eq!(missing, vec![1, 2, 3, 4]);
    assert!(present.is_empty());
}

#[test]
fn inventory_maps_zero_based_files_to_pages() {
    let files = names(&["0.webp", "2.webp", "notes.txt", "x.webp", "9.webp", "2.png"]);
    let (missing, present) = get_missing_pages(&files, 4);
    assert_eq!(present, vec![1, 3]);
    assert_eq!(missing, vec![2, 4]);
}

#[test]
fn inventory_partitions_and_repeats() {
    let files = names(&["4.webp", "1.webp", "+1.webp", "01.webp", "100.webp", "5.webp"]);
    let n = 7;
    let first = get_missing_pages(&files, n);
    let second = get_missing_pages(&files, n);
    assert_eq!(first, second);
    let (missing, present) = first;
    for p in 1..=n {
        assert!(missing.contains(&p) != present.contains(&p));
    }
    assert_eq!(missing.len() + present.len(), n);
    assert_eq!(present, vec![2, 5, 6]);
}

#[test]
fn inventory_of_a_complete_directory() {
    let files = names(&["0.webp", "1.webp", "2.webp"]);
    let (missing, present) = get_missing_pages(&files, 3);
    assert!(missing.is_empty());
    assert_eq!(present, vec![1, 2, 3]);
}

#[test]
fn inventory_of_an_empty_document() {
    let (missing, present) = get_missing_pages(&names(&["0.webp"]), 0);
    assert!(missing.is_empty());
    assert!(present.is_empty());
}

#[test]
fn batch_size_with_plenty_of_memory() {
    // 8 processors, half the memory free: factor 1 + 2 * 1/2 = 2.
    assert_eq!(batch_size_for(8, 16_000_000, 8_000_000), 16);
}

#[test]
fn batch_size_under_memory_pressure() {
    // 12 processors, nothing free: factor 1/2.
    assert_eq!(batch_size_for(12, 16_000_000, 0), 6);
    // 9 processors, a tenth free: factor 1/2 + 1/2 * 0.4 = 0.7, 6.3 rounds to 6.
    assert_eq!(batch_size_for(9, 100, 10), 6);
    // 15 processors at 0.7: 10.5 rounds up to 11.
    assert_eq!(batch_size_for(15, 100, 10), 11);
}

#[test]
fn batch_size_at_exactly_a_quarter_free() {
    // A quarter free is not above the threshold: factor 1/2 + 1/2 = 1.
    assert_eq!(batch_size_for(10, 400, 100), 10);
}

#[test]
fn batch_size_is_clamped() {
    assert_eq!(batch_size_for(2, 16, 8), MIN_BATCH_SIZE);
    assert_eq!(batch_size_for(64, 16, 16), MAX_BATCH_SIZE);
    assert_eq!(batch_size_for(0, 16, 8), MIN_BATCH_SIZE);
    assert_eq!(batch_size_for(0, 0, 0), MIN_BATCH_SIZE);
    assert_eq!(batch_size_for(4, 0, 0), MIN_BATCH_SIZE);
    assert_eq!(batch_size_for(4, 0, 10), MAX_BATCH_SIZE);
    assert_eq!(batch_size_for(u32::MAX, u64::MAX, u64::MAX), MAX_BATCH_SIZE);
}

#[test]
fn batch_size_stays_in_bounds_for_many_inputs() {
    for cpu in [0u32, 1, 2, 3, 4, 7, 8, 16, 33, 1000] {
        for total in [0u64, 1, 4, 1024, 8_388_608, u64::MAX] {
            for avail in [0u64, 1, 2, 1024, 4_194_304, u64::MAX] {
                let size = batch_size_for(cpu, total, avail);
                assert!((MIN_BATCH_SIZE..=MAX_BATCH_SIZE).contains(&size));
            }
        }
    }
}

#[test]
fn host_batch_size_is_in_bounds() {
    let size = get_adaptive_batch_size();
    assert!((MIN_BATCH_SIZE..=MAX_BATCH_SIZE).contains(&size));
}

#[test]
fn batches_keep_order_and_last_is_short() {
    let pages: Vec<usize> = (1..=7).collect();
    let batches = plan_batches(&pages, 3);
    assert_eq!(batches, vec![vec![1, 2, 3], vec![4, 5, 6], vec![7]]);
    assert_eq!(plan_batches(&pages, 7), vec![pages.clone()]);
    assert_eq!(plan_batches(&pages, 20), vec![pages.clone()]);
    assert!(plan_batches(&vec![], 5).is_empty());
    assert_eq!(plan_batches(&vec![2, 4, 6, 8], 2), vec![vec![2, 4], vec![6, 8]]);
}

#[test]
fn range_compression_example() {
    let pages = [2, 3, 4, 6, 9, 10];
    assert_eq!(page_ranges(&pages), vec![(2, 4), (6, 6), (9, 10)]);
    assert_eq!(create_page_spec(&pages), "1-3,5,8-9");
}

#[test]
fn range_compression_singletons_and_runs() {
    assert_eq!(create_page_spec(&[5]), "4");
    assert_eq!(create_page_spec(&[1, 2, 3, 4, 5]), "0-4");
    assert_eq!(create_page_spec(&[1, 3, 5]), "0,2,4");
    assert_eq!(create_page_spec(&[10, 11]), "9-10");
    assert_eq!(create_page_spec(&[]), "");
}

fn expand(spec: &str) -> Vec<usize> {
    let mut pages = Vec::new();
    for item in spec.split(',') {
        match item.split_once('-') {
            Some((a, b)) => {
                let a: usize = a.parse().unwrap();
                let b: usize = b.parse().unwrap();
                pages.extend((a..=b).map(|k| k + 1));
            }
            None => pages.push(item.parse::<usize>().unwrap() + 1),
        }
    }
    pages
}

#[test]
fn range_compression_round_trips() {
    let inputs: Vec<Vec<usize>> = vec![
        vec![1],
        vec![1, 2, 3, 4, 5, 6, 7, 8, 9, 10, 11, 12],
        vec![2, 3, 4, 6, 9, 10],
        vec![1, 3, 5, 7, 9],
        vec![99, 100, 101, 500, 1000, 1001],
    ];
    for pages in inputs {
        assert_eq!(expand(&create_page_spec(&pages)), pages);
    }
}

#[test]
fn rasterizer_arguments_for_a_batch() {
    let args = rasterizer_args("docs/clone.pdf", "images", "/", &[2, 3, 4, 6]);
    assert_eq!(
        args,
        vec![
            "-density".to_string(),
            "150".to_string(),
            "docs/clone.pdf[1-3,5]".to_string(),
            "-resize".to_string(),
            "1500x1500".to_string(),
            "images/index-%d.webp".to_string(),
        ]
    );
}

#[test]
fn rasterizer_output_pattern_takes_the_separator() {
    let args = rasterizer_args("C:\\docs\\clone.pdf", "C:\\images", "\\", &[1]);
    assert_eq!(args[2], "C:\\docs\\clone.pdf[0]");
    assert_eq!(args[5], "C:\\images\\index-%d.webp");
}

#[test]
fn batch_size_falls_back_when_the_host_reports_nothing() {
    // 4 processors, 8 GiB with 4 GiB available: factor 2, size 8.
    assert_eq!(batch_size_from_host(None, None), 8);
    assert_eq!(batch_size_from_host(Some(8), None), 16);
    assert_eq!(batch_size_from_host(None, Some((16_000_000, 0))), 5);
    assert_eq!(batch_size_from_host(Some(12), Some((16_000_000, 0))), 6);
}

#[test]
fn eta_before_any_page() {
    assert_eq!(estimate_seconds_remaining(0, 10, 0), 10);
    assert_eq!(estimate_seconds_remaining(0, 10, 99_000), 10);
    assert_eq!(estimate_seconds_remaining(0, 0, 0), 0);
}

#[test]
fn eta_from_observed_rate() {
    // 5 pages in 10 s: 2 s a page, 5 pages left.
    assert_eq!(estimate_seconds_remaining(5, 10, 10_000), 10);
    // 3 pages in 1 s, 7 left: 2.33 s, rounded down.
    assert_eq!(estimate_seconds_remaining(3, 10, 1_000), 2);
    assert_eq!(estimate_seconds_remaining(10, 10, 20_000), 0);
    assert_eq!(estimate_seconds_remaining(12, 10, 20_000), 0);
    assert_eq!(estimate_seconds_remaining(1, usize::MAX, u64::MAX), u64::MAX);
}

#[test]
fn eta_falls_at_constant_rate() {
    let millis_per_page = 1_500u64;
    let mut last = u64::MAX;
    for done in 1..=20usize {
        let eta = estimate_seconds_remaining(done, 20, done as u64 * millis_per_page);
        assert!(eta <= last);
        last = eta;
    }
    assert_eq!(last, 0);
}

#[test]
fn progress_snapshot_updates() {
    let mut state = ProgressState::new(12);
    assert_eq!(state.total_document_pages, 12);
    assert_eq!(state.pages_processed, 0);
    assert_eq!(state.estimated_seconds_remaining, 0);
    state.update(0, 8, 0, vec![1, 2]);
    assert_eq!(state.pages_to_process, 8);
    assert_eq!(state.estimated_seconds_remaining, 8);
    state.update(4, 8, 8_000, vec![1, 2, 3, 4, 5, 6]);
    assert_eq!(state.pages_processed, 4);
    assert_eq!(state.estimated_seconds_remaining, 8);
    assert_eq!(state.extracted_page_numbers, vec![1, 2, 3, 4, 5, 6]);
    assert_eq!(state.total_document_pages, 12);
}
