use lopdf::{Dictionary, Document, Object};
use page_extractor::document::document_page_count;
use page_extractor::reconcile::{merge_pages, rename_plan, BatchOutcome, RunReport};
use page_extractor::run::{ExtractionRun, RunStart, RunStep, MAX_RETRIES};
use page_extractor::workflows::{document_file_name, page_number_prefix, PagePreprocessStage};

fn started(files: &[&str], total: usize, batch_size: usize) -> ExtractionRun {
    let names: Vec<String> = files.iter().map(|s| s.to_string()).collect();
    match ExtractionRun::start(&names, total, batch_size) {
        RunStart::Started(run) => run,
        RunStart::AlreadyExtracted { .. } => panic!("expected pages to extract"),
    }
}

fn expect_rasterize(run: &mut ExtractionRun) -> Vec<usize> {
    match run.next_step(false) {
        RunStep::Rasterize => run.current_batch().clone(),
        RunStep::Finish(report) => panic!("run ended early: {}", report.message()),
    }
}

fn finish(run: &mut ExtractionRun, cancel: bool) -> RunReport {
    match run.next_step(cancel) {
        RunStep::Finish(report) => report,
        RunStep::Rasterize => panic!("expected the run to end"),
    }
}

#[test]
fn nothing_missing_short_circuits() {
    let names: Vec<String> = vec!["0.webp".to_string(), "1.webp".to_string(), "2.webp".to_string()];
    match ExtractionRun::start(&names, 3, 5) {
        RunStart::AlreadyExtracted { total_pages } => {
            assert_eq!(total_pages, 3);
            let report = RunReport::AllPresent { total_pages };
            assert!(report.is_success());
            assert_eq!(
                report.message(),
                "All images already extracted. Found 3 matching the total number of pages in the document."
            );
        }
        RunStart::Started(_) => panic!("no page should need extraction"),
    }
}

#[test]
fn initial_snapshot_before_any_batch() {
    let run = started(&["1.webp"], 5, 2);
    let progress = run.progress();
    assert_eq!(progress.pages_processed, 0);
    assert_eq!(progress.pages_to_process, 4);
    assert_eq!(progress.total_document_pages, 5);
    assert_eq!(progress.estimated_seconds_remaining, 4);
    assert_eq!(progress.extracted_page_numbers, vec![2]);
}

#[test]
fn every_batch_succeeds() {
    let mut run = started(&[], 7, 3);
    let mut seen = Vec::new();
    for expected in [vec![1, 2, 3], vec![4, 5, 6], vec![7]] {
        let batch = expect_rasterize(&mut run);
        assert_eq!(batch, expected);
        let outcome = run.record_attempt(true, 1_000).expect("a success settles the batch");
        assert_eq!(outcome.succeeded, expected);
        assert!(outcome.failed.is_empty());
        seen.extend(batch);
        assert_eq!(run.progress().extracted_page_numbers, seen);
    }
    assert_eq!(run.progress().pages_processed, 7);
    assert_eq!(run.progress().estimated_seconds_remaining, 0);
    let report = finish(&mut run, false);
    assert!(matches!(report, RunReport::Completed { processed: 7 }));
    assert!(report.is_success());
    assert_eq!(report.message(), "Document processed successfully. 7 missing pages extracted.");
}

#[test]
fn batch_failing_every_attempt_goes_to_failures() {
    let mut run = started(&["0.webp"], 7, 3);
    assert_eq!(expect_rasterize(&mut run), vec![2, 3, 4]);
    assert!(run.record_attempt(true, 500).is_some());
    assert_eq!(expect_rasterize(&mut run), vec![5, 6, 7]);
    for _ in 0..MAX_RETRIES - 1 {
        assert!(run.record_attempt(false, 600).is_none());
        assert_eq!(expect_rasterize(&mut run), vec![5, 6, 7]);
    }
    let outcome: BatchOutcome = run.record_attempt(false, 900).expect("the last failure settles the batch");
    assert!(outcome.succeeded.is_empty());
    assert_eq!(outcome.failed, vec![5, 6, 7]);
    assert_eq!(run.progress().extracted_page_numbers, vec![1, 2, 3, 4]);
    assert_eq!(run.progress().pages_processed, 3);
    let report = finish(&mut run, false);
    assert!(!report.is_success());
    match &report {
        RunReport::PartialFailure { processed, failed } => {
            assert_eq!(*processed, 3);
            assert_eq!(failed, &vec![5, 6, 7]);
        }
        _ => panic!("expected a partial failure"),
    }
    assert_eq!(report.message(), "Processed 3 missing pages. Failed to process pages: [5, 6, 7]");
}

#[test]
fn batch_succeeding_on_the_last_attempt_counts_whole() {
    let mut run = started(&[], 2, 5);
    assert_eq!(expect_rasterize(&mut run), vec![1, 2]);
    assert!(run.record_attempt(false, 100).is_none());
    assert_eq!(expect_rasterize(&mut run), vec![1, 2]);
    assert!(run.record_attempt(false, 200).is_none());
    assert_eq!(expect_rasterize(&mut run), vec![1, 2]);
    let outcome = run.record_attempt(true, 300).expect("settled");
    assert_eq!(outcome.succeeded, vec![1, 2]);
    assert!(outcome.failed.is_empty());
    let report = finish(&mut run, false);
    assert!(matches!(report, RunReport::Completed { processed: 2 }));
}

#[test]
fn cancelling_after_the_first_batch() {
    let mut run = started(&[], 9, 3);
    assert_eq!(expect_rasterize(&mut run), vec![1, 2, 3]);
    assert!(run.record_attempt(true, 1_000).is_some());
    let report = finish(&mut run, true);
    assert!(matches!(report, RunReport::Cancelled { processed: 3, to_process: 9 }));
    assert!(report.is_success());
    assert_eq!(report.message(), "Document processing cancelled. 3 out of 9 missing pages extracted.");
    assert_eq!(run.progress().extracted_page_numbers, vec![1, 2, 3]);
}

#[test]
fn cancelling_between_attempts_abandons_the_batch() {
    let mut run = started(&[], 6, 3);
    assert_eq!(expect_rasterize(&mut run), vec![1, 2, 3]);
    assert!(run.record_attempt(true, 1_000).is_some());
    assert_eq!(expect_rasterize(&mut run), vec![4, 5, 6]);
    assert!(run.record_attempt(false, 2_000).is_none());
    let report = finish(&mut run, true);
    assert!(matches!(report, RunReport::Cancelled { processed: 3, to_process: 6 }));
    assert_eq!(run.progress().extracted_page_numbers, vec![1, 2, 3]);
}

#[test]
fn cancelling_before_any_batch() {
    let mut run = started(&[], 4, 2);
    let report = finish(&mut run, true);
    assert!(matches!(report, RunReport::Cancelled { processed: 0, to_process: 4 }));
}

#[test]
fn merging_sorts_and_removes_repeats() {
    let mut pages = vec![5, 1];
    merge_pages(&mut pages, &[3, 1, 9, 3]);
    assert_eq!(pages, vec![1, 3, 5, 9]);
    let mut empty = Vec::new();
    merge_pages(&mut empty, &[]);
    assert!(empty.is_empty());
}

#[test]
fn renaming_to_one_based_names() {
    let plan = rename_plan(&[1, 2, 10]);
    assert_eq!(
        plan,
        vec![
            ("index-0.webp".to_string(), "1.webp".to_string()),
            ("index-1.webp".to_string(), "2.webp".to_string()),
            ("index-9.webp".to_string(), "10.webp".to_string()),
        ]
    );
}

#[test]
fn report_texts() {
    assert_eq!(
        RunReport::PartialFailure { processed: 0, failed: vec![4] }.message(),
        "Processed 0 missing pages. Failed to process pages: [4]"
    );
    assert_eq!(
        RunReport::Completed { processed: 0 }.message(),
        "Document processed successfully. 0 missing pages extracted."
    );
}

#[test]
fn page_paths_and_names_of_a_selection() {
    let stage = PagePreprocessStage {
        id: "a".to_string(),
        selected_pages: vec![1, 3, 12],
        data_directory: "data".to_string(),
        images_directory: "data/images".to_string(),
    };
    assert_eq!(
        stage.get_pages_paths(),
        vec!["data/images/1.webp".to_string(), "data/images/3.webp".to_string(), "data/images/12.webp".to_string()]
    );
    assert_eq!(stage.get_document_directory(), "data/images/1-3-12");
    assert_eq!(page_number_prefix(&stage.selected_pages), "p-1-3-12");
    assert_eq!(document_file_name("p-1-3-12", "invoice"), "p-1-3-12-invoice.pdf");
}

#[test]
fn malformed_document_is_rejected() {
    let result = document_page_count(b"not a pdf at all");
    match result {
        Err(error) => assert!(error.message().starts_with("Failed to load PDF: ")),
        Ok(_) => panic!("garbage must not parse"),
    }
}

fn three_page_pdf() -> Vec<u8> {
    let mut doc = Document::with_version("1.5");
    let pages_id = doc.new_object_id();
    let mut kids: Vec<Object> = Vec::new();
    for _ in 0..3 {
        let mut page = Dictionary::new();
        page.set("Type", "Page");
        page.set("Parent", pages_id);
        kids.push(doc.add_object(page).into());
    }
    let mut pages = Dictionary::new();
    pages.set("Type", "Pages");
    pages.set("Kids", kids);
    pages.set("Count", 3i64);
    doc.set_object(pages_id, pages);
    let mut catalog = Dictionary::new();
    catalog.set("Type", "Catalog");
    catalog.set("Pages", pages_id);
    let catalog_id = doc.add_object(catalog);
    doc.trailer.set("Root", catalog_id);
    let mut bytes = Vec::new();
    doc.save_to(&mut bytes).unwrap();
    bytes
}

#[test]
fn page_count_of_a_document() {
    let bytes = three_page_pdf();
    match document_page_count(&bytes) {
        Ok(n) => assert_eq!(n, 3),
        Err(error) => panic!("{}", error.message()),
    }
}

#[test]
fn cancelling_after_two_of_three_batches() {
    let mut run = started(&[], 6, 2);
    assert_eq!(expect_rasterize(&mut run), vec![1, 2]);
    assert!(run.record_attempt(true, 2_000).is_some());
    assert_eq!(expect_rasterize(&mut run), vec![3, 4]);
    for _ in 0..MAX_RETRIES - 1 {
        assert!(run.record_attempt(false, 3_000).is_none());
        assert_eq!(expect_rasterize(&mut run), vec![3, 4]);
    }
    let outcome = run.record_attempt(false, 4_000).expect("settled as failed");
    assert_eq!(outcome.failed, vec![3, 4]);
    // 2 pages in 4 s, 4 left at 2 s a page.
    assert_eq!(run.progress().estimated_seconds_remaining, 8);
    let report = finish(&mut run, true);
    assert!(matches!(report, RunReport::Cancelled { processed: 2, to_process: 6 }));
    assert_eq!(run.progress().extracted_page_numbers, vec![1, 2]);
    assert_eq!(run.progress().pages_processed, 2);
}
