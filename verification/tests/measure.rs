use vrecall::args::BenchMode;
use vrecall::measure::{
    band_values, count_below, latency_buckets, least_at, percentile, recall_at_k, scored,
    sim_loss_at_k, QueryTiming, Recall, ScoreGap,
};
use vrecall::metric::Metric;
use vrecall::order::{distinct_sorted, distinct_sorted_usize, stable_sort};
use vrecall::ranges::{collect_results, merge_results, worker_ranges};

fn approx_eq(a: f64, b: f64) {
    assert!((a - b).abs() < 1e-9, "expected {b}, got {a}");
}

fn ids(ids: &[i64]) -> Vec<(i64, Option<f64>)> {
    ids.iter().map(|&id| (id, None)).collect()
}

fn approx(ids: &[i64]) -> Vec<(i64, f64)> {
    ids.iter().map(|&id| (id, 0.0)).collect()
}

fn ratio(r: Recall) -> f64 {
    if r.denom == 0 {
        0.0
    } else {
        r.hits as f64 / r.denom as f64
    }
}

fn mean(values: &[f64]) -> f64 {
    values.iter().sum::<f64>() / values.len() as f64
}

fn gap(g: ScoreGap<f64>) -> f64 {
    mean(&g.from) - mean(&g.less)
}

fn at(sorted: &[u64], p: u8) -> f64 {
    percentile(sorted, p) as f64 / 100.0
}

#[test]
fn percentile_matches_numpy_linear_interpolation() {
    // Values verified against numpy.percentile(..., method="linear"), the
    // method ann-benchmarks uses.
    let sorted = [10, 20, 30, 40, 50];
    approx_eq(at(&sorted, 50), 30.0);
    approx_eq(at(&sorted, 100), 50.0);
    // rank = 0.90 * 4 = 3.6 -> 40 + 0.6 * (50 - 40) = 46.
    approx_eq(at(&sorted, 90), 46.0);
    // rank = 0.20 * 4 = 0.8 -> 10 + 0.8 * (20 - 10) = 18.
    approx_eq(at(&sorted, 20), 18.0);
    approx_eq(at(&sorted, 0), 10.0);
}

#[test]
fn percentile_single_element() {
    approx_eq(at(&[42], 50), 42.0);
    approx_eq(at(&[42], 0), 42.0);
    approx_eq(at(&[42], 100), 42.0);
}

#[test]
fn percentiles_ascend_between_first_and_last() {
    let sorted: Vec<u64> = (0..57).map(|i| i * i + 3).collect();
    let mut last = percentile(&sorted, 0);
    assert_eq!(last, 300);
    for p in 1..=100 {
        let next = percentile(&sorted, p);
        assert!(last <= next);
        last = next;
    }
    assert_eq!(last, 100 * (56 * 56 + 3));
    assert_eq!(percentile(&[u64::MAX, u64::MAX], 99), 100 * u64::MAX as u128);
}

#[test]
fn recall_at_k_counts_hits_over_capped_denominator() {
    let truth = ids(&[1, 2, 3, 4, 5]);
    approx_eq(ratio(recall_at_k(&truth, &approx(&[1, 2, 3, 9, 10]), 5)), 0.6);
    approx_eq(ratio(recall_at_k(&truth, &approx(&[1, 2, 3, 4, 5]), 5)), 1.0);
    approx_eq(ratio(recall_at_k(&truth, &approx(&[1, 9, 9, 9, 9]), 1)), 1.0);
    approx_eq(ratio(recall_at_k(&truth, &approx(&[9, 9, 9, 9, 9]), 5)), 0.0);
}

#[test]
fn recall_at_k_denominator_capped_by_available_truth() {
    // Only 3 true neighbors but k=5: denominator is 3, not 5.
    let truth = ids(&[1, 2, 3]);
    approx_eq(ratio(recall_at_k(&truth, &approx(&[1, 2, 3, 9, 10]), 5)), 1.0);
}

#[test]
fn recall_looks_at_the_top_k_alone() {
    let truth = ids(&[1, 2, 3, 4]);
    assert_eq!(recall_at_k(&truth, &approx(&[4, 3, 2, 1]), 2), Recall { hits: 0, denom: 2 });
    assert_eq!(recall_at_k(&truth, &approx(&[2, 1]), 2), Recall { hits: 2, denom: 2 });
    assert_eq!(recall_at_k(&truth, &approx(&[2]), 4), Recall { hits: 1, denom: 4 });
    assert_eq!(recall_at_k(&truth, &approx(&[]), 4), Recall { hits: 0, denom: 4 });
    assert_eq!(recall_at_k(&ids(&[]), &approx(&[1]), 4), Recall { hits: 0, denom: 0 });
    assert_eq!(recall_at_k(&truth, &approx(&[1]), 0), Recall { hits: 0, denom: 0 });
    // An id that is found twice counts twice.
    assert_eq!(recall_at_k(&ids(&[1]), &approx(&[1, 1]), 2), Recall { hits: 2, denom: 1 });
}

#[test]
fn sim_loss_cosine_is_mean_truth_minus_mean_approx() {
    let truth = vec![(1, Some(1.0)), (2, Some(0.9))];
    let approx = vec![(1, 0.95), (2, 0.85)];
    // cosine (similarity): (1.0 + 0.9)/2 - (0.95 + 0.85)/2 = 0.95 - 0.90 = 0.05
    approx_eq(gap(sim_loss_at_k(&truth, &approx, 2, Metric::Cosine).unwrap()), 0.05);
}

#[test]
fn sim_loss_l2_is_mean_approx_minus_mean_truth() {
    let truth = vec![(1, Some(0.1)), (2, Some(0.2))];
    let approx = vec![(1, 0.3), (2, 0.4)];
    // l2 (distance): (0.3 + 0.4)/2 - (0.1 + 0.2)/2 = 0.35 - 0.15 = 0.20
    approx_eq(gap(sim_loss_at_k(&truth, &approx, 2, Metric::L2).unwrap()), 0.20);
}

#[test]
fn sim_loss_none_when_truth_similarity_missing() {
    let truth = vec![(1, Some(1.0)), (2, None)];
    let approx = vec![(1, 0.95), (2, 0.85)];
    assert!(sim_loss_at_k(&truth, &approx, 2, Metric::Cosine).is_none());
}

#[test]
fn sim_loss_none_for_empty_slice() {
    assert!(sim_loss_at_k::<f64>(&[], &[], 5, Metric::Cosine).is_none());
    let truth = vec![(1, Some(1.0))];
    assert!(sim_loss_at_k(&truth, &[], 5, Metric::Cosine).is_none());
}

#[test]
fn sim_loss_compares_as_many_as_both_have() {
    let truth = vec![(1, Some(10)), (2, Some(20)), (3, None)];
    let approx = vec![(1, 1), (2, 2)];
    let g = sim_loss_at_k(&truth, &approx, 3, Metric::Cosine).unwrap();
    assert_eq!((g.from, g.less), (vec![10, 20], vec![1, 2]));
    let g = sim_loss_at_k(&truth, &approx, 1, Metric::L2).unwrap();
    assert_eq!((g.from, g.less), (vec![1], vec![10]));
}

#[test]
fn latency_bucket_recall_partitions_into_bands() {
    let latencies: Vec<u64> = (1..=10).collect();
    // recall[i] = i, so band means are easy to check.
    let per_query: Vec<Vec<f64>> = (0..10).map(|i| vec![i as f64]).collect();
    let buckets = latency_buckets(&latencies);

    // p99/p100 bands are empty for n=10 and are omitted.
    let labels: Vec<&str> = buckets.iter().map(|b| b.label).collect();
    assert_eq!(labels, vec!["p50", "p90", "p95"]);

    let p50 = &buckets[0];
    assert_eq!(p50.members.len(), 5);
    approx_eq(mean(&band_values(&p50.members, &per_query, 0)), 2.0); // mean of 0..=4
    assert_eq!(p50.edge_ns, 5);

    let p90 = &buckets[1];
    assert_eq!(p90.members.len(), 4);
    approx_eq(mean(&band_values(&p90.members, &per_query, 0)), 6.5); // mean of 5..=8
    assert_eq!(p90.edge_ns, 9);

    let p95 = &buckets[2];
    assert_eq!(p95.members.len(), 1);
    approx_eq(mean(&band_values(&p95.members, &per_query, 0)), 9.0);
    assert_eq!(p95.edge_ns, 10);
}

#[test]
fn latency_bucket_recall_empty_input() {
    assert!(latency_buckets(&[]).is_empty());
}

#[test]
fn bands_hold_every_query_once() {
    let latencies: Vec<u64> = (0..1000u64).map(|i| (i * 7919) % 613).collect();
    let buckets = latency_buckets(&latencies);
    let sizes: Vec<usize> = buckets.iter().map(|b| b.members.len()).collect();
    assert_eq!(sizes, vec![500, 400, 50, 40, 10]);
    let mut all: Vec<usize> = buckets.iter().flat_map(|b| b.members.iter().copied()).collect();
    assert!(all.windows(2).all(|w| latencies[w[0]] <= latencies[w[1]]));
    // Equally slow queries keep their order.
    assert!(all.windows(2).all(|w| latencies[w[0]] < latencies[w[1]] || w[0] < w[1]));
    all.sort_unstable();
    assert_eq!(all, (0..1000).collect::<Vec<usize>>());
    assert_eq!(latency_buckets(&[5])[0].label, "p50");
}

#[test]
fn band_edges_round_halves_up() {
    for n in [1u64, 2, 3, 5, 7, 10, 30, 50, 70, 90, 150, 999] {
        let latencies: Vec<u64> = (0..n).collect();
        let mut done = 0;
        for b in latency_buckets(&latencies) {
            done += b.members.len();
            let p: f64 = b.label[1..].parse().unwrap();
            assert_eq!(done, ((p / 100.0) * n as f64).round() as usize, "n={n} {}", b.label);
        }
        assert_eq!(done as u64, n);
    }
}

#[test]
fn timing_sums_up_latencies() {
    assert_eq!(QueryTiming::from_latencies(&[], BenchMode::Qps, 7), QueryTiming::empty());
    let t = QueryTiming::from_latencies(&[50, 10, 40, 20, 30], BenchMode::Latency, 7);
    assert_eq!((t.count, t.total_ns, t.span_ns), (5, 150, 150));
    assert_eq!((t.p50, t.p90, t.p95, t.p99), (3000, 4600, 4800, 4960));
    let t = QueryTiming::from_latencies(&[50, 10], BenchMode::Qps, 7);
    assert_eq!((t.count, t.total_ns, t.span_ns), (2, 60, 7));
}

#[test]
fn workers_share_queries_evenly() {
    assert_eq!(worker_ranges(10, 3), vec![(0, 4), (4, 7), (7, 10)]);
    assert_eq!(worker_ranges(3, 16), vec![(0, 1), (1, 2), (2, 3)]);
    assert_eq!(worker_ranges(3, 0), vec![(0, 3)]);
    assert_eq!(worker_ranges(0, 4), Vec::<(usize, usize)>::new());
}

#[test]
fn merged_results_are_in_query_order() {
    let results: Vec<String> = (0..11).map(|i| format!("r{i}")).collect();
    let parts: Vec<Vec<(u64, String)>> = worker_ranges(11, 4)
        .into_iter()
        .map(|(s, e)| (s..e).map(|i| (i as u64, results[i].clone())).collect())
        .collect();
    assert_eq!(merge_results(parts.clone()), results);
    let mut shuffled = parts;
    shuffled.reverse();
    assert_eq!(merge_results(shuffled), results);
}

#[test]
fn failed_workers_fail_the_measurement() {
    let good: Vec<Result<Vec<(u64, char)>, &str>> = vec![Ok(vec![(2, 'c')]), Ok(vec![(0, 'a'), (1, 'b')])];
    assert_eq!(collect_results(good), Ok(vec!['a', 'b', 'c']));
    let bad: Vec<Result<Vec<(u64, char)>, &str>> =
        vec![Ok(vec![(0, 'a')]), Err("first"), Ok(vec![]), Err("second")];
    assert_eq!(collect_results(bad), Err("first"));
    let none: Vec<Result<Vec<(u64, char)>, &str>> = vec![];
    assert_eq!(collect_results(none), Ok(vec![]));
}

#[test]
fn recall_depends_on_the_first_k_alone() {
    let truth = ids(&[1, 2, 3, 4]);
    let full = Recall { hits: 3, denom: 3 };
    assert_eq!(recall_at_k(&truth, &approx(&[3, 1, 2, 9]), 3), full);
    assert_eq!(recall_at_k(&truth, &approx(&[2, 3, 1, 1, 1]), 3), full);
    assert_eq!(recall_at_k(&ids(&[3, 2, 1, 7]), &approx(&[1, 2, 3]), 3), full);
    assert_eq!(recall_at_k(&truth, &approx(&[1, 2, 4, 3]), 3), Recall { hits: 2, denom: 3 });
    assert_eq!(recall_at_k(&truth, &approx(&[1]), 0), Recall { hits: 0, denom: 0 });
    assert_eq!(recall_at_k(&ids(&[]), &approx(&[1]), 3), Recall { hits: 0, denom: 0 });
}

#[test]
fn bands_ascend_to_the_slowest_query() {
    let latencies: Vec<u64> = (0..200u64).map(|i| (i * 37) % 200).collect();
    let buckets = latency_buckets(&latencies);
    let labels: Vec<&str> = buckets.iter().map(|b| b.label).collect();
    assert_eq!(labels, vec!["p50", "p90", "p95", "p99", "p100"]);
    let edges: Vec<u64> = buckets.iter().map(|b| b.edge_ns).collect();
    assert_eq!(edges, vec![99, 179, 189, 197, 199]);
}

#[test]
fn metric_turns_the_gap_round() {
    let truth = vec![(1, Some(10)), (2, Some(8))];
    let found = vec![(1, 9), (3, 8)];
    let cosine = sim_loss_at_k(&truth, &found, 2, Metric::Cosine).unwrap();
    assert_eq!((cosine.from, cosine.less), (vec![10, 8], vec![9, 8]));
    let l2 = sim_loss_at_k(&truth, &found, 2, Metric::L2).unwrap();
    assert_eq!((l2.from, l2.less), (vec![9, 8], vec![10, 8]));
}

#[test]
fn sorting_is_stable_and_distinct() {
    assert_eq!(
        stable_sort(vec![(3, 'a'), (1, 'b'), (3, 'c'), (2, 'd'), (1, 'e')]),
        vec![(1, 'b'), (1, 'e'), (2, 'd'), (3, 'a'), (3, 'c')]
    );
    assert_eq!(distinct_sorted(&[5, 1, 5, 3, 1]), vec![1, 3, 5]);
    assert_eq!(distinct_sorted_usize(&[100, 10, 1, 10]), vec![1, 10, 100]);
    assert_eq!(distinct_sorted(&[]), Vec::<u64>::new());
}

#[test]
fn recalls_are_held_against_a_target() {
    let recalls: Vec<String> =
        [0.95f64, 0.9, 1.0, 0.0, 0.949999999].iter().map(|r| r.to_string()).collect();
    assert_eq!(count_below(&recalls, "0.95"), 2);
    for target in [0.95f64, 0.9500000001, 0.950000000999, 1e-9, 1.0] {
        let expected = [0.95f64, 0.9, 1.0, 0.0, 0.949999999].iter().filter(|&&r| r < target - 1e-9);
        assert_eq!(count_below(&recalls, &target.to_string()), expected.count(), "{target}");
    }
    assert_eq!(count_below(&vec!["0.799999999".to_string()], "0.8"), 1);
    assert_eq!(count_below(&recalls, "NaN"), 0);
    assert_eq!(count_below(&recalls, "1"), 4);
    assert_eq!(count_below(&Vec::new(), "1"), 0);
    assert_eq!(least_at(&recalls), 3);
    assert_eq!(least_at(&vec!["0.5".to_string(), "0.50".to_string(), "5e-1".to_string()]), 0);
}

#[test]
fn means_are_of_the_scores_that_are_there() {
    assert_eq!(scored(&[Some(1), None, Some(3)]), Some(vec![1, 3]));
    assert_eq!(scored::<u8>(&[None, None]), None);
    assert_eq!(scored::<u8>(&[]), None);
}
