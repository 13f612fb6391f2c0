use dnsfuzz::batch_cache::PendingBatches;
use dnsfuzz::fuzz_case::FuzzCaseId;

#[test]
fn batches_fill_up_and_ignore_repeats() {
    let mut p = PendingBatches::new(3);
    assert_eq!(p.register(FuzzCaseId(1)), None);
    assert_eq!(p.register(FuzzCaseId(2)), None);
    assert_eq!(p.register(FuzzCaseId(1)), None);
    assert_eq!(p.register(FuzzCaseId(3)), Some(vec![FuzzCaseId(1), FuzzCaseId(2), FuzzCaseId(3)]));
    assert_eq!(p.register(FuzzCaseId(2)), None);
    assert_eq!(p.register(FuzzCaseId(4)), None);
    assert_eq!(p.finish_computation(), Some(vec![FuzzCaseId(4)]));
    assert_eq!(p.finish_computation(), None);
    assert_eq!(p.register(FuzzCaseId(5)), Some(vec![FuzzCaseId(5)]));
    assert_eq!(p.register(FuzzCaseId(4)), None);
}

#[test]
fn zero_batch_size_runs_each_case_alone() {
    let mut p = PendingBatches::new(0);
    assert_eq!(p.register(FuzzCaseId(9)), Some(vec![FuzzCaseId(9)]));
}
