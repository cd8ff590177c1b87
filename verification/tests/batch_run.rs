use mc_translator::translation::batch_run::{BatchRun, RunPhase, RunStep};
use mc_translator::translation::batching::GlobalBatchItem;

fn items(n: usize) -> Vec<GlobalBatchItem> {
    let mut v = Vec::new();
    for i in 0..n {
        v.push(GlobalBatchItem::new(&format!("Item {}", i), i, "a.json", &format!("k{}", i)));
    }
    v
}

fn expect_batch(step: RunStep) -> Vec<usize> {
    match step {
        RunStep::Batch(b) => b,
        other => panic!("expected a batch, got {:?}", other),
    }
}

fn expect_single(step: RunStep) -> usize {
    match step {
        RunStep::Single(i) => i,
        other => panic!("expected a single item, got {:?}", other),
    }
}

#[test]
fn test_run_goes_through_retry_and_single_stages() {
    let mut v = items(5);
    let pending = vec![0, 1, 2, 3, 4];
    let mut run = BatchRun::start(&v, &pending, 2, 1000, 0);
    assert_eq!(run.phase, RunPhase::Initial);
    assert_eq!((run.retry_size, run.retry_chars), (1, 500));

    let b = expect_batch(run.next_step(&v, false));
    assert_eq!(b, vec![0, 1]);
    v[0].translated = Some("x".to_string());
    run.batch_done(&v, &b, true);
    assert_eq!(run.failed, vec![1]);

    let b = expect_batch(run.next_step(&v, false));
    assert_eq!(b, vec![2, 3]);
    run.batch_done(&v, &b, false);
    assert_eq!(run.failed, vec![1, 2, 3]);

    let b = expect_batch(run.next_step(&v, false));
    assert_eq!(b, vec![4]);
    v[4].translated = Some("y".to_string());
    run.batch_done(&v, &b, true);
    assert_eq!(run.failed, vec![1, 2, 3]);

    // the retry stage: one item per batch
    let b = expect_batch(run.next_step(&v, false));
    assert_eq!(run.phase, RunPhase::Retry);
    assert_eq!(b, vec![1]);
    v[1].translated = Some("z".to_string());
    run.batch_done(&v, &b, true);
    let b = expect_batch(run.next_step(&v, false));
    assert_eq!(b, vec![2]);
    run.batch_done(&v, &b, false);
    let b = expect_batch(run.next_step(&v, false));
    assert_eq!(b, vec![3]);
    run.batch_done(&v, &b, true);

    // the single stage
    assert_eq!(expect_single(run.next_step(&v, false)), 2);
    assert_eq!(run.phase, RunPhase::Single);
    assert_eq!(expect_single(run.next_step(&v, false)), 3);
    assert!(matches!(run.next_step(&v, false), RunStep::Done));
}

#[test]
fn test_run_done_when_all_translated_first_time() {
    let mut v = items(3);
    let mut run = BatchRun::start(&v, &[0, 2], 10, 1000, 0);
    let b = expect_batch(run.next_step(&v, false));
    assert_eq!(b, vec![0, 2]);
    v[0].translated = Some("a".to_string());
    v[2].translated = Some("b".to_string());
    run.batch_done(&v, &b, true);
    assert!(matches!(run.next_step(&v, false), RunStep::Done));
    assert_eq!(run.phase, RunPhase::Initial);
}

#[test]
fn test_run_cancelled_is_done() {
    let v = items(2);
    let mut run = BatchRun::start(&v, &[0, 1], 1, 1000, 0);
    assert!(matches!(run.next_step(&v, true), RunStep::Done));
    assert_eq!(run.next, 0);
    let b = expect_batch(run.next_step(&v, false));
    assert_eq!(b, vec![0]);
}

#[test]
fn test_run_with_nothing_pending() {
    let v = items(2);
    let mut run = BatchRun::start(&v, &[], 4, 1000, 0);
    assert!(run.batches.is_empty());
    assert!(matches!(run.next_step(&v, false), RunStep::Done));
}

#[test]
fn test_retry_limits_have_floors() {
    let v = items(1);
    let run = BatchRun::start(&v, &[0], 1, 150, 0);
    assert_eq!((run.retry_size, run.retry_chars), (1, 100));
}

#[test]
fn retry_batches_take_half_the_size() {
    let mut v = items(6);
    let pending = vec![0, 1, 2, 3, 4, 5];
    let mut run = BatchRun::start(&v, &pending, 4, 1000, 0);
    assert_eq!((run.retry_size, run.retry_chars), (2, 500));
    let b = expect_batch(run.next_step(&v, false));
    assert_eq!(b, vec![0, 1, 2, 3]);
    run.batch_done(&v, &b, false);
    let b = expect_batch(run.next_step(&v, false));
    assert_eq!(b, vec![4, 5]);
    v[5].translated = Some("t".to_string());
    run.batch_done(&v, &b, true);
    // the failed items 0..=4 come back two at a time
    let b = expect_batch(run.next_step(&v, false));
    assert_eq!(run.phase, RunPhase::Retry);
    assert_eq!(b, vec![0, 1]);
    run.batch_done(&v, &b, false);
    assert_eq!(expect_batch(run.next_step(&v, false)), vec![2, 3]);
    assert_eq!(expect_batch(run.next_step(&v, false)), vec![4]);
    // then the two that failed again, one at a time
    assert_eq!(expect_single(run.next_step(&v, false)), 0);
    assert_eq!(run.phase, RunPhase::Single);
    assert_eq!(expect_single(run.next_step(&v, false)), 1);
    assert!(matches!(run.next_step(&v, false), RunStep::Done));
}

#[test]
fn test_run_translation_batch_all_done() {
    let mut item = GlobalBatchItem::new("Apple", 1, "test.json", "k1");
    item.translated = Some("蘋果".to_string());
    let v = vec![item];
    let mut run = BatchRun::start(&v, &[], 10, 1000, 0);
    assert_eq!((run.total_batches, run.current_batch, run.progress), (1, 1, 1));
    assert!(matches!(run.next_step(&v, false), RunStep::Done));
    assert_eq!(v[0].translated, Some("蘋果".to_string()));
}

#[test]
fn run_counters_follow_the_stages() {
    let mut v = items(4);
    v[3].translated = Some("t".to_string());
    let mut run = BatchRun::start(&v, &[0, 1, 2], 2, 1000, 10);
    assert_eq!((run.total_batches, run.current_batch, run.progress), (2, 0, 11));
    let b = expect_batch(run.next_step(&v, false));
    assert_eq!(run.current_batch, 1);
    v[0].translated = Some("a".to_string());
    run.batch_done(&v, &b, true);
    assert_eq!(run.progress, 12);
    let b = expect_batch(run.next_step(&v, false));
    assert_eq!((run.total_batches, run.current_batch), (2, 2));
    run.batch_done(&v, &b, false);
    assert_eq!(run.progress, 12);
    // retry: items 1 and 2, one per batch
    let b = expect_batch(run.next_step(&v, false));
    assert_eq!(b, vec![1]);
    assert_eq!((run.total_batches, run.current_batch), (2, 1));
    run.batch_done(&v, &b, false);
    let _ = expect_batch(run.next_step(&v, false));
    assert_eq!(run.current_batch, 2);
    assert_eq!(expect_single(run.next_step(&v, false)), 1);
    run.single_done(true);
    assert_eq!(run.progress, 13);
    assert_eq!((run.total_batches, run.current_batch), (2, 2));
}
