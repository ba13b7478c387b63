use uscr::driver::{run_pages, Page, RetryBudget};
use uscr::record::{batch_bounds, collect_records, dedup_batch, Record};
use uscr::stop::{page_decision, Decision, Evaluator, Phase};
use uscr::store::{count_changed, xmax_to_success, Outcome, Store};
use uscr::watermark::{watermark_from_db, Watermark};

fn rec(id: i64, content: &str) -> Record {
    Record { id, content: content.as_bytes().to_vec() }
}

#[test]
fn widen_only_widens() {
    let mut w = Watermark::new(100, 500);
    w.widen(150, 400);
    assert_eq!(w, Watermark { low: 100, high: 500 });
    w.widen(50, 600);
    assert_eq!(w, Watermark { low: 50, high: 600 });
}

#[test]
fn widen_is_idempotent() {
    let mut w = Watermark::new(10, 20);
    w.widen(5, 30);
    let once = w;
    w.widen(5, 30);
    assert_eq!(w, once);
}

#[test]
fn watermark_from_db_decodes_absence() {
    assert_eq!(watermark_from_db(0, 0), None);
    assert_eq!(watermark_from_db(7, 3), None);
    assert_eq!(watermark_from_db(3, 7), Some(Watermark { low: 3, high: 7 }));
}

#[test]
fn scenario_caught_up_stops_immediately() {
    // Persisted watermark (100, 500) with limit 300: the stop point is
    // 500 - 300 = 200; the span 400 is no gap; a first batch with maximum
    // identity 150 <= 200 terminates at once.
    let mut e = Evaluator::new(Some(Watermark::new(100, 500)), 300);
    let d = e.on_batch(120, 150);
    assert_eq!(d, Decision::Stop);
    assert_eq!(e.phase, Phase::Done);
}

#[test]
fn scenario_above_stop_point_scans_on() {
    let mut e = Evaluator::new(Some(Watermark::new(100, 500)), 300);
    let d = e.on_batch(400, 600);
    assert_eq!(d, Decision::Continue);
    assert_eq!(e.current, Some(Watermark { low: 100, high: 600 }));
    assert_eq!(e.phase, Phase::Scanning);
}

#[test]
fn gap_jumps_once_then_stops() {
    // Persisted (4950, 5000) with limit 100: span 50 < 99, a gap. Catching
    // up jumps to low - 1 = 4949 with stop point 4900, scans on above it,
    // and stops at the first batch at or below it - without a second jump.
    let mut e = Evaluator::new(Some(Watermark::new(4950, 5000)), 100);
    let d1 = e.on_batch(4990, 5000);
    assert_eq!(d1, Decision::Jump(4949));
    assert_eq!(e.phase, Phase::Jumping);
    let d2 = e.on_batch(4930, 4945);
    assert_eq!(d2, Decision::Continue);
    let d3 = e.on_batch(4880, 4899);
    assert_eq!(d3, Decision::Stop);
    assert_eq!(e.phase, Phase::Done);
}

#[test]
fn first_run_scans_until_empty_page() {
    let mut e = Evaluator::new(None, 300);
    assert_eq!(e.on_batch(10, 20), Decision::Continue);
    assert_eq!(e.on_batch(1, 9), Decision::Continue);
    assert_eq!(e.on_empty_page(), Decision::Stop);
    assert_eq!(e.phase, Phase::Done);
}

#[test]
fn failed_commit_changes_nothing_and_continues() {
    let mut e = Evaluator::new(Some(Watermark::new(100, 500)), 300);
    let before = e;
    let d = e.on_commit_failed();
    assert_eq!(d, Decision::Continue);
    assert_eq!(e, before);
}

#[test]
fn zero_successes_stop_a_page_source() {
    assert_eq!(page_decision(10, 0), Decision::Stop);
    assert_eq!(page_decision(10, 3), Decision::Continue);
    assert_eq!(page_decision(0, 0), Decision::Continue);
}

#[test]
fn resubmitted_batch_is_all_noops() {
    let mut store = Store::new();
    let batch = vec![rec(1, "alpha"), rec(2, "beta")];
    let first = store.upsert_batch(batch);
    assert_eq!(first, vec![Outcome::Changed, Outcome::Changed]);
    assert_eq!(store.row_count(), 2);

    let again = vec![rec(1, "alpha"), rec(2, "beta")];
    let second = store.upsert_batch(again);
    assert_eq!(second, vec![Outcome::Unchanged, Outcome::Unchanged]);
    assert_eq!(count_changed(&second), 0);
    assert_eq!(store.row_count(), 2);
}

#[test]
fn changed_content_counts_as_success() {
    let mut store = Store::new();
    let _ = store.upsert_batch(vec![rec(1, "old")]);
    let outcomes = store.upsert_batch(vec![rec(1, "new")]);
    assert_eq!(outcomes, vec![Outcome::Changed]);
    assert_eq!(store.row_count(), 1);
}

#[test]
fn driver_stops_after_all_duplicate_page() {
    // Page 1 brings two fresh rows; page 2 repeats them, so every outcome is
    // a no-op and pagination stops after that page; page 3 is never fetched.
    let pages = vec![
        Page { entries: vec![Some(rec(1, "a")), Some(rec(2, "b"))] },
        Page { entries: vec![Some(rec(1, "a")), Some(rec(2, "b"))] },
        Page { entries: vec![Some(rec(3, "c"))] },
    ];
    let mut store = Store::new();
    let fetched = run_pages(pages, &mut store);
    assert_eq!(fetched, 2);
    assert_eq!(store.row_count(), 2);
}

#[test]
fn driver_runs_out_of_pages_without_stop() {
    let pages = vec![
        Page { entries: vec![Some(rec(1, "a"))] },
        Page { entries: vec![] },
        Page { entries: vec![Some(rec(2, "b"))] },
    ];
    let mut store = Store::new();
    let fetched = run_pages(pages, &mut store);
    assert_eq!(fetched, 3);
    assert_eq!(store.row_count(), 2);
}

#[test]
fn lenient_extraction_skips_only_the_bad_entry() {
    let mut entries: Vec<Option<Record>> = Vec::new();
    for i in 0..10i64 {
        if i == 4 {
            entries.push(None);
        } else {
            entries.push(Some(rec(i, "x")));
        }
    }
    let batch = collect_records(entries);
    assert_eq!(batch.len(), 9);
    assert_eq!(batch[4].id, 5);
}

#[test]
fn dedup_keeps_first_occurrence() {
    let batch = dedup_batch(vec![rec(1, "a"), rec(2, "b"), rec(1, "later"), rec(3, "c")]);
    assert_eq!(batch.len(), 3);
    assert_eq!(batch[0].id, 1);
    assert_eq!(batch[0].content, b"a".to_vec());
    assert_eq!(batch[1].id, 2);
    assert_eq!(batch[2].id, 3);
}

#[test]
fn batch_bounds_spans_the_whole_batch() {
    assert_eq!(batch_bounds(&vec![]), None);
    let b = vec![rec(5, ""), rec(-3, ""), rec(12, "")];
    assert_eq!(batch_bounds(&b), Some((-3, 12)));
}

#[test]
fn xmax_counts_fresh_rows() {
    let rows = vec![Some(0u32), Some(77), None, Some(0)];
    assert_eq!(xmax_to_success(&rows), 3);
}

#[test]
fn retry_budget_gives_up_at_the_limit() {
    let mut r = RetryBudget::new(3);
    assert!(!r.on_fetch_error());
    assert!(!r.on_fetch_error());
    assert!(r.on_fetch_error());
    r.on_fetch_ok();
    assert!(!r.on_fetch_error());
}

#[test]
fn done_phase_absorbs_further_batches() {
    let mut e = Evaluator::new(Some(Watermark::new(100, 500)), 300);
    assert_eq!(e.on_batch(120, 150), Decision::Stop);
    let done = e;
    assert_eq!(e.on_batch(10, 20), Decision::Stop);
    assert_eq!(e, done);
}

#[test]
fn driver_stops_on_the_very_first_stale_page() {
    let mut store = Store::new();
    let warmup = vec![Page { entries: vec![Some(rec(1, "a")), Some(rec(2, "b"))] }];
    assert_eq!(run_pages(warmup, &mut store), 1);

    let rerun = vec![
        Page { entries: vec![Some(rec(1, "a")), Some(rec(2, "b"))] },
        Page { entries: vec![Some(rec(9, "z"))] },
    ];
    let fetched = run_pages(rerun, &mut store);
    assert_eq!(fetched, 1);
    assert_eq!(store.row_count(), 2);
}
