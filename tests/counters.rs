use dnsfuzz::decay::DecayLedger;
use dnsfuzz::fuzz_case::FuzzCaseId;
use dnsfuzz::counters::Counters;
use dnsfuzz::coverage::{
    expect_counters, expect_ok, respond, CapacityError, CommandResponses, Commands,
    CoverageCounters, NUM_GUARDS,
};

#[test]
fn new_fills_every_position() {
    let c = Counters::new(4, 7);
    assert_eq!(c.iter(), vec![7, 7, 7, 7]);
    assert_eq!(c.len(), 4);
}

#[test]
fn add_saturates_pairwise() {
    let a = Counters::from(vec![1, u32::MAX, 5, u32::MAX - 1]);
    let b = Counters::from(vec![2, 1, 0, 1]);
    let sum = a.add(b);
    assert_eq!(sum.as_slice(), &[3, u32::MAX, 5, u32::MAX]);
}

#[test]
fn discard_clears_positions_set_in_pattern() {
    let mut c = Counters::from(vec![4, 5, 6, 7]);
    let p = Counters::from(vec![0, 3, 0, 1]);
    c.discard_counters_by_pattern(&p);
    assert_eq!(c.iter(), vec![4, 0, 6, 0]);
}

#[test]
fn shrink_keeps_positions_set_in_pattern() {
    let c = Counters::from(vec![4, 5, 6, 7]);
    let p = Counters::from(vec![0, 3, 0, 1]);
    assert_eq!(c.shrink_by_pattern(&p).iter(), vec![5, 7]);
    let none = Counters::from(vec![0, 0, 0, 0]);
    assert_eq!(c.shrink_by_pattern(&none).len(), 0);
}

#[test]
fn min_max_binary_count() {
    let mut lo = Counters::from(vec![1, 9, 0]);
    let mut hi = Counters::from(vec![1, 9, 0]);
    let other = Counters::from(vec![3, 2, 0]);
    lo.min_pairwise(&other);
    hi.max_pairwise(&other);
    assert_eq!(lo.iter(), vec![1, 2, 0]);
    assert_eq!(hi.iter(), vec![3, 9, 0]);
    let mut bin = Counters::from(vec![0, 17, 1, u32::MAX]);
    bin.convert_to_binary();
    assert_eq!(bin.iter(), vec![0, 1, 1, 1]);
    assert_eq!(Counters::from(vec![0, 17, 0, 2]).count(), 2);
    assert!(Counters::from(vec![0, 0, 1]).has_counters_set());
    assert!(!Counters::from(vec![0, 0, 0]).has_counters_set());
    assert!(!Counters::new(0, 0).has_counters_set());
}

#[test]
fn equality_is_elementwise() {
    assert!(Counters::from(vec![1, 2]) == Counters::from(vec![1, 2]));
    assert!(Counters::from(vec![1, 2]) != Counters::from(vec![2, 1]));
    assert!(Counters::from(vec![1, 2]) != Counters::from(vec![1, 2, 0]));
}

#[test]
fn hash_is_sha256_of_little_endian_words() {
    // SHA-256 of the empty input.
    let empty = Counters::new(0, 0).hash();
    assert_eq!(
        empty[..4],
        [0xe3, 0xb0, 0xc4, 0x42],
    );
    assert_eq!(Counters::from(vec![1, 2]).hash(), Counters::from(vec![1, 2]).hash());
    assert_ne!(Counters::from(vec![1]).hash(), Counters::from(vec![256]).hash());
}

#[test]
fn coverage_counters_size_and_increment() {
    let mut cov = CoverageCounters::new();
    assert_eq!(cov.size(), 0);
    assert_eq!(
        cov.set_size(NUM_GUARDS as u32 + 1),
        Err(CapacityError { requested: NUM_GUARDS as u32 + 1 })
    );
    assert_eq!(cov.set_size(3), Ok(()));
    assert_eq!(cov.inc(1), 0);
    assert_eq!(cov.inc(1), 1);
    assert_eq!(cov.inc(NUM_GUARDS as u32), 0);
    assert_eq!(cov.get_values().iter(), vec![0, 2, 0]);
    assert_eq!(cov.get_and_reset().iter(), vec![0, 2, 0]);
    assert_eq!(cov.get_values().iter(), vec![0, 0, 0]);
}

#[test]
fn control_protocol_answers() {
    let mut cov = CoverageCounters::new();
    cov.set_size(2).unwrap();
    cov.inc(0);
    let (resp, stop) = respond(Commands::Get, &mut cov);
    assert!(!stop);
    assert_eq!(expect_counters(resp).unwrap().iter(), vec![1, 0]);
    let (resp, stop) = respond(Commands::GetAndReset, &mut cov);
    assert!(!stop);
    assert_eq!(expect_counters(resp).unwrap().iter(), vec![1, 0]);
    let (resp, _) = respond(Commands::Get, &mut cov);
    assert_eq!(expect_counters(resp).unwrap().iter(), vec![0, 0]);
    let (resp, stop) = respond(Commands::Terminate, &mut cov);
    assert!(stop);
    assert!(expect_ok(&resp).is_ok());
    let (resp, stop) = respond(Commands::Unknown, &mut cov);
    assert!(!stop);
    assert!(matches!(resp, CommandResponses::UnknownCommand));
    assert!(expect_ok(&resp).is_err());
    assert!(expect_counters(resp).is_err());
}

#[test]
fn served_entries_decay_once_plus_their_penalties() {
    let v = FuzzCaseId(1);
    let w = FuzzCaseId(2);
    let mut ledger = DecayLedger::new();
    let mut priority = 100.0_f64;
    for _ in 0..2 {
        priority *= 0.91_f64.powi(ledger.serve(v) as i32);
    }
    assert!((priority - 82.81).abs() < 1e-9);
    ledger.decay(&vec![v, w]);
    ledger.decay(&vec![v]);
    assert_eq!(ledger.get(v), 2);
    assert_eq!(ledger.get(w), 1);
    assert_eq!(ledger.serve(v), 3);
    assert_eq!(ledger.get(v), 0);
    assert_eq!(ledger.serve(v), 1);
    assert_eq!(ledger.get(w), 1);
}
