use makcu_rs::profiler::{Perf, PerformanceProfiler};
use std::time::Instant;

#[test]
fn records_count_and_total() {
    let mut p = Perf::new();
    p.record("move", 10);
    p.record("move", 32);
    p.record("click", 5);
    let mut s = p.stats();
    s.sort();
    assert_eq!(s, vec![("click", (1, 5)), ("move", (2, 42))]);
}

#[test]
fn totals_saturate() {
    let mut p = Perf::new();
    p.record("x", u128::MAX - 1);
    p.record("x", 5);
    assert_eq!(p.stats(), vec![("x", (2, u128::MAX))]);
}

#[test]
fn measure_runs_the_closure_and_counts_it() {
    let mut p = Perf::new();
    let mut ran = false;
    p.measure("batch", || ran = true);
    assert!(ran);
    let t0 = Instant::now();
    p.prof("batch", &t0);
    let s = p.stats();
    assert_eq!(s.len(), 1);
    assert_eq!(s[0].0, "batch");
    assert_eq!(s[0].1 .0, 2);
}

#[test]
fn disabled_profiler_keeps_nothing() {
    let mut ran = false;
    PerformanceProfiler::measure("move", || ran = true);
    assert!(ran);
    PerformanceProfiler::prof("move", &Instant::now());
    assert!(PerformanceProfiler::stats().is_empty());
}
