use dnsfuzz::counters::Counters;
use dnsfuzz::progress::{update_coverage, CoverageStats, CoverageStatus};

#[test]
fn new_coverage_is_what_neither_background_nor_earlier_results_reached() {
    let mut coverage = Counters::from(vec![0, 0, 5, 0]);
    let background = Counters::from(vec![1, 0, 0, 0]);
    let results = vec![
        Counters::from(vec![9, 0, 3, 0]),
        Counters::from(vec![0, 2, 0, 0]),
        Counters::from(vec![0, 1, 0, 0]),
        Counters::from(vec![0, 0, 0, 4]),
    ];
    let (statuses, stats) = update_coverage(&mut coverage, &background, &results);
    assert_eq!(
        statuses,
        vec![
            CoverageStatus::Unchanged,
            CoverageStatus::NewBranches,
            CoverageStatus::Unchanged,
            CoverageStatus::NewBranches,
        ]
    );
    assert_eq!(coverage.iter(), vec![0, 2, 5, 4]);
    assert_eq!(stats, CoverageStats { edges: 4, explored_edges: 3 });
}
