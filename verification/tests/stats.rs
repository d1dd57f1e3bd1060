use rusty::stats::benchmark_rust;
use rusty::stats::calculate_stats;
use rusty::stats::sort_times;

#[test]
fn sorting_orders_and_keeps_samples() {
    let times: Vec<u64> = vec![5, 3, 9, 3, 1, 0, 7];
    let sorted = sort_times(&times);
    assert_eq!(sorted, vec![0, 1, 3, 3, 5, 7, 9]);
}

#[test]
fn sorting_empty_and_single() {
    assert_eq!(sort_times(&Vec::new()), Vec::<u64>::new());
    assert_eq!(sort_times(&vec![42]), vec![42]);
}

#[test]
fn stats_exact_values() {
    let times: Vec<u64> = vec![1, 2, 3, 4, 10];
    let stats = calculate_stats(&times);
    assert_eq!(stats.mean, 4);
    assert_eq!(stats.median, 3);
    assert_eq!(stats.p95, times[(times.len() * 95) / 100]);
    assert_eq!(stats.min, 1);
    assert_eq!(stats.max, 10);
}

#[test]
fn stats_of_one_sample() {
    let stats = calculate_stats(&vec![7]);
    assert_eq!(stats.mean, 7);
    assert_eq!(stats.median, 7);
    assert_eq!(stats.p95, 7);
    assert_eq!(stats.min, 7);
    assert_eq!(stats.max, 7);
}

#[test]
fn benchmark_returns_engine_value_and_sorted_times() {
    let (value, times) = benchmark_rust(88);
    assert_eq!(value, 1100087778366101931);
    assert_eq!(times.len(), 100);
    for w in times.windows(2) {
        assert!(w[0] <= w[1]);
    }
}
