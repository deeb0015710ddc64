use vrecall::args::{BenchArgs, BenchMode};
use vrecall::autotune::{
    autotune_table_covers, autotune_table_for, job_line, job_timeout_message, operating_lines,
    operating_points, time_left, tune_next, tune_start, tune_start_line, unreached_lines,
    TuneEvent, TuneStep,
};
use vrecall::bench::{
    clamp_nprobes, index_facts, largest_cutoff, measurement_query, plan_bench, select_index,
    shown_label, shown_measurement, truth_metric, valid_target, BenchError, BenchPlan,
};
use vrecall::bench_run::{planned, BenchEvent, BenchFacts, BenchKind, BenchState, BenchStep};
use vrecall::json::{parse_json, write_json, Json};
use vrecall::metric::Metric;
use vrecall::query::{
    bind_vars, exact_query, extract_id_sims, graph_approx_query, graph_tuned_query,
    is_vector_index, ivf_approx_query, ivf_target_query, origin_vars, sample_query,
    sample_vectors, RowError,
};
use vrecall::truth::{
    computing_line, large_dataset, loaded_line, no_scores_line, plan_truth, query_shape,
    stored_score, truth_from_exact, truth_layout, truth_of, StoredScore, TruthError,
};

fn json(text: &str) -> Json {
    parse_json(text).unwrap_or_else(|e| panic!("{e}: {text}"))
}

fn rows(text: &str) -> Vec<Json> {
    match json(text) {
        Json::Array(items) => items,
        _ => panic!("no array"),
    }
}

fn bench_args() -> BenchArgs {
    BenchArgs {
        gt_file: None,
        ann_dataset: None,
        query_file: None,
        gt_id_offset: 0,
        queries: 1000,
        topk: vec![1, 10, 50, 100],
        nprobes: vec![1, 8, 32, 128, 512],
        target_recall: None,
        autotune_timeout_sec: 3600,
        retune: false,
        gt_workers: 16,
        mode: BenchMode::Latency,
        clients: 16,
        index: None,
        search_list_size: None,
        rerank: false,
        no_plan: false,
        verbose: false,
    }
}

const LISTING: &str = r#"{"indexes": [
    {"id": "c/0", "name": "primary", "type": "primary"},
    {"id": "c/1", "name": "vector_cosine", "type": "vector",
     "params": {"dimension": 768, "metric": "cosine", "nLists": 448}},
    {"id": "c/2", "name": "graph", "type": "vector-graph",
     "params": {"dimension": 96, "metric": "l2", "maxDegree": 48, "alpha": 1.4}}
]}"#;

fn planned_for(args: &BenchArgs, idx: &Json) -> Result<BenchPlan, BenchError> {
    let facts = index_facts(idx)?;
    plan_bench(args, idx, facts, 5)
}

fn message<T>(r: Result<T, BenchError>) -> String {
    match r {
        Ok(_) => panic!("no error"),
        Err(e) => e.message(),
    }
}

#[test]
fn metric_parse_and_query_shape() {
    assert!(Metric::parse("cosine").ok().unwrap().is_similarity());
    assert!(!Metric::parse("l2").ok().unwrap().is_similarity());
    assert!(Metric::parse("dot").is_err());
    assert_eq!(Metric::Cosine.sort_dir(), "DESC");
    assert_eq!(Metric::L2.sort_dir(), "ASC");
    let q = graph_approx_query("coll", "vg", Metric::L2, 10);
    assert!(q.contains("APPROX_NEAR_L2"));
    assert!(q.contains("SORT s ASC"));
    assert!(!q.contains("nProbe"));
}

#[test]
fn metrics_have_their_functions() {
    assert_eq!(Metric::Cosine.approx_fn(), "APPROX_NEAR_COSINE");
    assert_eq!(Metric::L2.exact_fn(), "L2_DISTANCE");
    assert_eq!((Metric::Cosine.label(), Metric::L2.label()), ("cosine", "l2"));
    assert_eq!(
        Metric::parse("dot").err().unwrap().message(),
        "vector-graph bench supports metric cosine or l2, got 'dot'"
    );
}

#[test]
fn queries_are_written_out() {
    assert_eq!(
        exact_query("c", Metric::Cosine, 100),
        "FOR d IN c LET s = COSINE_SIMILARITY(d.vector, @qp) SORT s DESC LIMIT 100 RETURN {k: d.idx, s: s}"
    );
    assert_eq!(
        ivf_approx_query("c", "i", 10, 8),
        "FOR d IN c OPTIONS {indexHint: \"i\", forceIndexHint: true} LET sim = \
         APPROX_NEAR_COSINE(d.vector, @qp, {nProbe: 8}) SORT sim DESC LIMIT 10 RETURN {k: d.idx, s: sim}"
    );
    assert_eq!(
        ivf_target_query("c", "i", 10, "0.95"),
        "FOR d IN c OPTIONS {indexHint: \"i\", forceIndexHint: true} LET sim = \
         APPROX_NEAR_COSINE(d.vector, @qp, {targetRecall: 0.95}) SORT sim DESC LIMIT 10 RETURN {k: d.idx, s: sim}"
    );
    assert_eq!(
        graph_approx_query("c", "i", Metric::L2, 10),
        "FOR d IN c OPTIONS {indexHint: \"i\", forceIndexHint: true} LET s = \
         APPROX_NEAR_L2(d.vector, @qp) SORT s ASC LIMIT 10 RETURN {k: d.idx, s: s}"
    );
    assert_eq!(sample_query("c", 7), "FOR d IN c SORT d.idx LIMIT 7 RETURN d.vector");
}

#[test]
fn graph_options_are_added_to_the_query() {
    let q = |size, rerank| graph_tuned_query("c", "i", Metric::Cosine, 5, size, rerank);
    assert_eq!(q(None, false), graph_approx_query("c", "i", Metric::Cosine, 5));
    assert!(q(Some(64), false).contains("(d.vector, @qp, {searchListSize: 64}) SORT s DESC"));
    assert!(q(None, true).contains("(d.vector, @qp, {rerank: true}) SORT s DESC"));
    assert!(q(Some(64), true).contains("(d.vector, @qp, {searchListSize: 64, rerank: true})"));
}

#[test]
fn bind_variables_hold_the_query_point() {
    assert_eq!(write_json(&bind_vars(&vec!["0.5".into(), "-2e1".into()])), "{\"qp\":[0.5,-20.0]}");
    assert_eq!(write_json(&origin_vars(2)), "{\"qp\":[0.0,0.0]}");
}

#[test]
fn rows_give_ids_and_scores() {
    let list = extract_id_sims(&rows(r#"[{"k": 3, "s": 0.5}, {"k": -1, "s": 2}]"#)).ok().unwrap();
    assert_eq!(list, vec![(3, "0.5".to_string()), (-1, "2".to_string())]);
    let err = extract_id_sims(&rows(r#"[{"k": 3, "s": 1}, {"k": 1.5, "s": 1}]"#)).err().unwrap();
    assert_eq!(
        err.message(),
        "row has no integer 'k' (idx) field: {\"k\":1.5,\"s\":1} — was the dataset built with \
         this version of `vrecall setup`?"
    );
    assert!(matches!(
        extract_id_sims(&rows(r#"[{"k": 9223372036854775808, "s": 1}]"#)),
        Err(RowError::NoId { .. })
    ));
    let err = extract_id_sims(&rows(r#"[{"k": 3, "s": null}]"#)).err().unwrap();
    assert_eq!(err.message(), "missing 's'");
}

#[test]
fn sampled_rows_give_vectors() {
    let list = sample_vectors(&rows(r#"[[1, 0.25, "x"], []]"#)).ok().unwrap();
    assert_eq!(list, vec![vec!["1".to_string(), "0.25".into(), "0".into()], vec![]]);
    let err = sample_vectors(&rows(r#"[[1], null]"#)).err().unwrap();
    assert_eq!(err.message(), "query vector is not an array");
}

#[test]
fn index_is_chosen_by_name_or_kind() {
    let listing = json(LISTING);
    let name = |wanted: Option<&str>| {
        select_index(&listing, wanted).map(|i| i.get_str("name").unwrap().to_string())
    };
    assert_eq!(name(None).ok(), Some("vector_cosine".to_string()));
    assert_eq!(name(Some("graph")).ok(), Some("graph".to_string()));
    assert_eq!(message(name(Some("x"))), "no index named 'x' found on the collection");
    let bare = json(r#"{"indexes": [{"type": "primary"}]}"#);
    assert_eq!(message(select_index(&bare, None)), "no vector index found on the collection");
    assert_eq!(message(select_index(&json("{}"), None)), "indexes missing");
    assert!(is_vector_index(Some("vector")) && is_vector_index(Some("vector-graph")));
    assert!(!is_vector_index(Some("primary")) && !is_vector_index(None));
}

#[test]
fn index_must_tell_name_id_and_dimension() {
    assert_eq!(message(index_facts(&json("{}"))), "index has no name field");
    assert_eq!(message(index_facts(&json(r#"{"name": "a"}"#))), "index has no id field");
    assert_eq!(
        message(index_facts(&json(r#"{"name": "a", "id": "c/1", "params": {}}"#))),
        "could not determine dimension from index definition"
    );
}

#[test]
fn sweep_clamps_probes_and_sorts_cutoffs() {
    let listing = json(LISTING);
    let idx = select_index(&listing, None).ok().unwrap();
    let mut args = bench_args();
    args.topk = vec![10, 1, 10];
    match planned_for(&args, idx) {
        Ok(BenchPlan::Sweep { info, ks, nprobes }) => {
            assert_eq!(ks, vec![1, 10]);
            assert_eq!(nprobes, vec![1, 8, 32, 128, 448]);
            assert_eq!((info.count, info.dimension, info.nlists), (5, 768, 448));
            assert_eq!((info.name.as_str(), info.id.as_str()), ("vector_cosine", "c/1"));
        }
        _ => panic!("no sweep"),
    }
    args.nprobes = vec![512, 449];
    match planned_for(&args, idx) {
        Ok(BenchPlan::Sweep { nprobes, .. }) => assert_eq!(nprobes, vec![448]),
        _ => panic!("no sweep"),
    }
    args.nprobes = vec![];
    assert_eq!(
        message(planned_for(&args, idx)),
        "no nProbe values remain after clamping to nLists=448"
    );
    args.topk = vec![];
    assert_eq!(message(planned_for(&args, idx)), "--topk is empty");
    assert_eq!(clamp_nprobes(&[8, 1, 9, 8], 8), vec![1, 8]);
    assert_eq!(clamp_nprobes(&[3, 9, 1, 700], 8), vec![1, 3, 8]);
    assert_eq!(clamp_nprobes(&[], 8), Vec::<u64>::new());
}

#[test]
fn nlists_is_found_where_the_server_tells_it() {
    let plan = |extra: &str| {
        let idx = json(&format!(
            r#"{{"name": "a", "id": "c/1", "type": "vector", "params": {{"dimension": 3}} {extra}}}"#
        ));
        planned_for(&bench_args(), &idx)
    };
    assert_eq!(message(plan("")), "could not determine nLists from index definition");
    match plan(r#", "resolvedNLists": 9, "shards": {"s1": {"resolvedNLists": 4}}"#) {
        Ok(BenchPlan::Sweep { info, .. }) => assert_eq!(info.nlists, 9),
        _ => panic!("no sweep"),
    }
    match plan(r#", "shards": {"s1": {}, "s2": {"resolvedNLists": 4}}"#) {
        Ok(BenchPlan::Sweep { info, nprobes, .. }) => {
            assert_eq!((info.nlists, nprobes), (4, vec![1, 4]))
        }
        _ => panic!("no sweep"),
    }
}

#[test]
fn target_recall_must_lie_in_zero_to_one() {
    for ok in ["1", "0.95", "1e-300", "1.000", "0.0000001"] {
        assert!(valid_target(ok), "{ok}");
    }
    for bad in ["0", "-0", "-0.5", "1.0000001", "NaN", "inf", "", "x"] {
        assert!(!valid_target(bad), "{bad}");
    }
    let listing = json(LISTING);
    let idx = select_index(&listing, None).ok().unwrap();
    let mut args = bench_args();
    args.target_recall = Some("0.95".to_string());
    match planned_for(&args, idx) {
        Ok(BenchPlan::Target { target, ks, .. }) => {
            assert_eq!((target.as_str(), ks), ("0.95", vec![1, 10, 50, 100]))
        }
        _ => panic!("no target"),
    }
    args.target_recall = Some("1.5".to_string());
    assert_eq!(
        message(planned_for(&args, idx)),
        "--target-recall must be a number in (0, 1], got 1.5"
    );
    for text in [
        "1.0000000000000001",
        "1.00000000000000011102230246251565404236316680908203125",
        "1.0000000000000001110223024625156540423631668090820312501",
        "2.47e-324",
        "5e-400",
        "1e-9999999999999999999999",
        "0e5",
        "-1e-320",
    ] {
        let t: f64 = text.parse().unwrap();
        assert_eq!(valid_target(text), t > 0.0 && t <= 1.0, "{text}");
    }
}

#[test]
fn graph_index_takes_its_own_path() {
    let listing = json(LISTING);
    let idx = select_index(&listing, Some("graph")).ok().unwrap();
    let mut args = bench_args();
    args.target_recall = Some("7".to_string());
    match planned_for(&args, idx) {
        Ok(BenchPlan::Graph { graph, ks }) => {
            assert_eq!((graph.metric, graph.max_degree, graph.alpha.as_str()), (Metric::L2, 48, "1.4"));
            assert_eq!((graph.count, graph.dimension, graph.name.as_str()), (5, 96, "graph"));
            assert_eq!(ks, vec![1, 10, 50, 100]);
        }
        _ => panic!("no graph"),
    }
    let graph = |params: &str| {
        json(&format!(r#"{{"name": "g", "id": "c/2", "type": "vector-graph", "params": {params}}}"#))
    };
    assert_eq!(
        message(planned_for(&args, &graph(r#"{"dimension": 3}"#))),
        "vector-graph index has no metric"
    );
    assert_eq!(
        message(planned_for(&args, &graph(r#"{"dimension": 3, "metric": "dot"}"#))),
        "vector-graph bench supports metric cosine or l2, got 'dot'"
    );
    match planned_for(&args, &graph(r#"{"dimension": 3, "metric": "cosine"}"#)) {
        Ok(BenchPlan::Graph { graph, .. }) => {
            assert_eq!((graph.max_degree, graph.alpha.as_str()), (0, "0"))
        }
        _ => panic!("no graph"),
    }
}

#[test]
fn other_errors_tell_what_is_missing() {
    assert_eq!(
        BenchError::NoDatabase { db: "d".into() }.message(),
        "Database 'd' not found. Run `vrecall setup` first."
    );
    assert_eq!(BenchError::NoQueries.message(), "no query vectors available");
}

#[test]
fn autotune_table_covers_checks_topk_and_recall() {
    let v = json(
        r#"{
        "tunedTables": [
            { "topK": 10, "points": [ { "recall": 0.90 }, { "recall": 0.96 } ] }
        ]
    }"#,
    );
    let covers =
        |top_k: usize, target: f64| autotune_table_covers(&v, top_k, &target.to_string());
    assert!(covers(10, 0.95));
    assert!(!covers(10, 0.99));
    // No table for topK=5.
    assert!(!covers(5, 0.50));
}

#[test]
fn autotune_table_reaches_its_own_recall() {
    let v = json(r#"{"tunedTables": [{"topK": 1, "points": [{"recall": 1}, {"recall": "x"}]}]}"#);
    assert!(autotune_table_covers(&v, 1, "1"));
    assert!(!autotune_table_covers(&v, 1, "1.0000001"));
    assert!(!autotune_table_covers(&v, 1, "NaN"));
    assert!(autotune_table_for(&v, 1).is_some());
    assert!(autotune_table_for(&json("{}"), 1).is_none());
}

fn near(x: f64) -> Vec<f64> {
    let bits = x.to_bits();
    (0..5).map(|i| f64::from_bits(bits - 2 + i)).collect()
}

fn covers(recall: f64, target: f64) -> bool {
    let v = json(&format!(
        r#"{{"tunedTables": [{{"topK": 1, "points": [{{"recall": {recall:?}}}]}}]}}"#
    ));
    autotune_table_covers(&v, 1, &target.to_string())
}

#[test]
fn autotune_table_may_fall_a_hair_short() {
    assert!(covers(0.9499999999, 0.95));
    assert!(!covers(0.94, 0.95));
    // In doubles, 0.8 - 1e-9 lies above 0.799999999.
    assert!(!covers(0.799999999, 0.8));
    for target in [1.0, 0.8, 0.95, 0.99, 1e-8] {
        for recall in near(target - 1e-9) {
            assert_eq!(covers(recall, target), recall >= target - 1e-9, "{recall} {target}");
        }
    }
}

#[test]
fn slack_is_taken_off_in_doubles() {
    for (recall, target) in [
        (0.0, 1e-9),
        (0.0, 1.1e-9),
        (-0.5e-9, 1e-10),
        (-0.95e-9, 1e-10),
        (-1.0000000005, -1.0),
        (-1.00000001, -1.0),
        (-1e-9, 0.0),
        (1e300, 0.5),
        (1.0, 1e300),
        (-5e-324, 1e-9),
    ] {
        assert_eq!(covers(recall, target), recall >= target - 1e-9, "{recall} {target}");
    }
}

#[test]
fn measurements_have_their_queries() {
    let head = "FOR d IN coll OPTIONS {indexHint: \"vector_cosine\", forceIndexHint: true}";
    let listing = json(LISTING);
    let idx = select_index(&listing, None).ok().unwrap();
    let mut args = bench_args();
    args.topk = vec![10, 1];
    args.search_list_size = Some(7);
    let sweep = planned_for(&args, idx).ok().unwrap();
    assert_eq!(
        measurement_query(&sweep, &args, "coll", 4),
        format!(
            "{head} LET sim = APPROX_NEAR_COSINE(d.vector, @qp, {{nProbe: 448}}) \
             SORT sim DESC LIMIT 10 RETURN {{k: d.idx, s: sim}}"
        )
    );
    assert_eq!((shown_measurement(&sweep), shown_label(&sweep)), (0, "nProbe: 1".to_string()));
    assert!(truth_metric(&sweep) == Metric::Cosine);

    args.target_recall = Some("0.95".to_string());
    let target = planned_for(&args, idx).ok().unwrap();
    assert_eq!(
        measurement_query(&target, &args, "coll", 0),
        format!(
            "{head} LET sim = APPROX_NEAR_COSINE(d.vector, @qp, {{targetRecall: 0.95}}) \
             SORT sim DESC LIMIT 10 RETURN {{k: d.idx, s: sim}}"
        )
    );
    assert_eq!(
        (shown_measurement(&target), shown_label(&target)),
        (0, "targetRecall: 0.95".to_string())
    );
    assert_eq!(largest_cutoff(&target), 10);

    let idx = json(
        r#"{"name": "vg", "id": "c/2", "type": "vector-graph",
            "params": {"dimension": 96, "metric": "l2"}}"#,
    );
    let graph = planned_for(&args, &idx).ok().unwrap();
    assert_eq!(
        measurement_query(&graph, &args, "coll", 0),
        "FOR d IN coll OPTIONS {indexHint: \"vg\", forceIndexHint: true} \
         LET s = APPROX_NEAR_L2(d.vector, @qp, {searchListSize: 7}) \
         SORT s ASC LIMIT 1 RETURN {k: d.idx, s: s}"
    );
    assert_eq!(
        (shown_measurement(&graph), shown_label(&graph)),
        (1, "l2, single operating point".to_string())
    );
    assert_eq!(largest_cutoff(&graph), 10);
    assert!(truth_metric(&graph) == Metric::L2);
}

#[test]
fn operating_points_are_laid_out() {
    let v = json(
        r#"{"tunedTables": [{"topK": 10, "minRecall": 0.5, "name": "t", "points":
            [{"recall": 0.9, "faissKey": "nprobe=4", "timeSeconds": 0.001}, {"faissKey": 3}]}]}"#,
    );
    assert_eq!(
        operating_points(&v, 10),
        vec![(Some("0.9".to_string()), Some("0.001".to_string())), (None, None)]
    );
    let cells = vec![("0.900".to_string(), "1.000".to_string()), ("NaN".to_string(), "NaN".to_string())];
    assert_eq!(
        operating_lines(&v, 10, &cells),
        "  Autotune params: minRecall=0.5, name=\"t\", topK=10\n\
         \x20 Operating points (topK=10):\n\
         \x20   recall  | param            | time(ms)\n\
         \x20   --------|------------------|---------\n\
         \x20    0.900  | nprobe=4         |   1.000\n\
         \x20      NaN  | ?                |     NaN\n"
    );
    assert_eq!(operating_lines(&v, 9, &Vec::new()), "");
    let bare = json(r#"{"tunedTables": [{"topK": 10, "points": []}]}"#);
    assert_eq!(operating_lines(&bare, 10, &Vec::new()), "  Autotune params: topK=10\n");
}

#[test]
fn autotune_runs_only_when_needed() {
    assert_eq!(tune_start(false), TuneStep::AskForTable);
    assert_eq!(tune_start(true), TuneStep::Submit);
    assert_eq!(tune_next(TuneStep::AskForTable, TuneEvent::Answer(true)), TuneStep::Covered);
    assert_eq!(tune_next(TuneStep::AskForTable, TuneEvent::Answer(false)), TuneStep::Submit);
    assert_eq!(tune_next(TuneStep::AskForTable, TuneEvent::Failure), TuneStep::Submit);
    assert_eq!(tune_next(TuneStep::Submit, TuneEvent::Done), TuneStep::Tuned);
    assert_eq!(tune_next(TuneStep::Submit, TuneEvent::Failure), TuneStep::Failed);
    let mut step = tune_next(TuneStep::Submit, TuneEvent::Job);
    for left in [true, true, false] {
        assert_eq!(step, TuneStep::Pause);
        step = tune_next(step, TuneEvent::Done);
        assert_eq!(step, TuneStep::Poll);
        step = tune_next(step, TuneEvent::Answer(false));
        assert_eq!(step, TuneStep::LookAtClock);
        step = tune_next(step, TuneEvent::Answer(left));
    }
    assert_eq!(step, TuneStep::TimedOut);
    assert_eq!(tune_next(TuneStep::Poll, TuneEvent::Answer(true)), TuneStep::Tuned);
    assert!(time_left(3, 4) && !time_left(4, 4));
}

#[test]
fn autotune_lines_tell_what_happens() {
    assert_eq!(
        tune_start_line(true, 10, "0.950"),
        "\nForcing autotune re-run (topK=10, target recall=0.950)..."
    );
    assert_eq!(
        tune_start_line(false, 10, "0.950"),
        "\nChecking autotune operating points (topK=10, target recall=0.950)..."
    );
    assert_eq!(
        unreached_lines(10, "0.950"),
        "  WARNING: autotune could not reach recall 0.950 at topK=10; the index may not be\n  able \
         to achieve it. Queries will fall back to the best available point."
    );
    assert_eq!(job_line("77", 60), "  Submitted autotune job 77 (timeout 60s); polling...");
    assert_eq!(job_timeout_message("77", 60), "autotune job 77 did not finish within 60s");
}

#[test]
fn truth_file_must_fit() {
    let err = |e: TruthError| e.message();
    assert_eq!(query_shape(Some(&[5, 3]), None).ok(), Some((5, 3)));
    assert_eq!(query_shape(None, Some(&[6, 2])).ok(), Some((6, 2)));
    assert_eq!(
        query_shape(None, None).map_err(err).unwrap_err(),
        "none of the datasets [\"test\", \"vectors\"] were found"
    );
    assert_eq!(
        query_shape(Some(&[5]), Some(&[6, 2])).map_err(err).unwrap_err(),
        "query vectors must be 2D (queries × dim)"
    );
    let plan = |shape: &[usize], k, q| plan_truth(5, 3, shape, k, q);
    assert_eq!(
        plan(&[5], 10, 9).map_err(err).unwrap_err(),
        "neighbors must be 2D (queries × k)"
    );
    assert_eq!(
        plan(&[4, 100], 10, 9).map_err(err).unwrap_err(),
        "row count mismatch: queries=5 vs neighbors=4"
    );
    assert_eq!(
        plan(&[5, 9], 10, 9).map_err(err).unwrap_err(),
        "--topk asks for top-10 but 'neighbors' only has 9 per query"
    );
    let p = plan(&[5, 100], 10, 4).ok().unwrap();
    assert_eq!((p.rows, p.dim, p.truth_k, p.max_k, p.n_queries), (5, 3, 100, 10, 4));
    assert_eq!(plan(&[5, 100], 10, 9).ok().unwrap().n_queries, 5);
    assert_eq!(
        p.lines("q.h5", -1),
        "  queries:   5 × 3 float32 from q.h5 (4 used)\n  neighbors: 5 × 100 int (top-10, id offset -1)\n"
    );
    assert!(p.scores_fit(&[5, 100]));
    assert!(!p.scores_fit(&[5, 99]) && !p.scores_fit(&[5]) && !p.scores_fit(&[4, 100]));
    assert_eq!(
        no_scores_line("distances", Some(&[5, 99])),
        "  distances: shape mismatch ([5, 99]), ignoring"
    );
    assert_eq!(
        no_scores_line("distances", None),
        "  distances: dataset not present; sim-loss will be empty"
    );
}

#[test]
fn truth_layouts_are_told_apart() {
    let l = truth_layout(3072, "f.h5", true, true).ok().unwrap();
    assert_eq!((l.neighbors.as_str(), l.scores.as_str(), l.scores_are_cosine), ("neighbors", "distances", false));
    let l = truth_layout(3072, "f.h5", false, true).ok().unwrap();
    assert_eq!(
        (l.neighbors.as_str(), l.scores.as_str(), l.scores_are_cosine),
        ("large_3072/neighbors", "large_3072/scores", true)
    );
    assert_eq!(large_dataset(3072, "neighbors"), "large_3072/neighbors");
    assert_eq!(
        truth_layout(3072, "f.h5", false, false).err().unwrap().message(),
        "no 'neighbors' or 'large_3072/neighbors' dataset in f.h5"
    );
    assert_eq!(stored_score(Metric::Cosine, false), StoredScore::AngularDistance);
    assert_eq!(stored_score(Metric::Cosine, true), StoredScore::Score);
    assert_eq!(stored_score(Metric::L2, false), StoredScore::Score);
}

#[test]
fn truth_ids_are_shifted() {
    assert_eq!(truth_of::<f64>(&[1, 5], None, -1), vec![(0, None), (4, None)]);
    assert_eq!(truth_of(&[1, 5], Some(&[0.5, 0.25]), 2), vec![(3, Some(0.5)), (7, Some(0.25))]);
    assert_eq!(truth_from_exact(&[(4, 0.5)]), vec![(4, Some(0.5))]);
    assert_eq!(loaded_line(7, 10), "Loaded 7 queries with top-10 ground truth.");
    assert_eq!(
        computing_line(10, Metric::L2, 4),
        "Computing exact top-10 ground truth (L2_DISTANCE, 4 workers)..."
    );
}

fn drive(facts: BenchFacts, events: &[BenchEvent]) -> Vec<BenchState> {
    let mut states = vec![facts.start()];
    for e in events {
        states.push(facts.next(*states.last().unwrap(), *e));
    }
    states
}

#[test]
fn target_run_tunes_before_it_measures() {
    let facts = BenchFacts { has_dataset: true, no_plan: false };
    let states = drive(
        facts,
        &[
            BenchEvent::Done,
            BenchEvent::Answer(true),
            BenchEvent::Done,
            BenchEvent::Done,
            BenchEvent::Planned(BenchKind::Target, 1),
            BenchEvent::Done,
            BenchEvent::Answer(true),
            BenchEvent::Done,
            BenchEvent::Queries(3),
            BenchEvent::Done,
            BenchEvent::Done,
        ],
    );
    let steps: Vec<BenchStep> = states.iter().map(|s| s.step).collect();
    assert_eq!(
        steps,
        vec![
            BenchStep::FindDataset,
            BenchStep::FindDatabase,
            BenchStep::SelectIndex,
            BenchStep::CountDocuments,
            BenchStep::MakePlan,
            BenchStep::ShowPlan,
            BenchStep::Confirm,
            BenchStep::Tune,
            BenchStep::LoadTruth,
            BenchStep::Measure,
            BenchStep::Report,
            BenchStep::Complete,
        ]
    );
}

#[test]
fn sweep_measures_each_point_once() {
    let facts = BenchFacts { has_dataset: false, no_plan: true };
    let mut state = facts.start();
    assert_eq!(state.step, BenchStep::FindDatabase);
    for e in [
        BenchEvent::Answer(true),
        BenchEvent::Done,
        BenchEvent::Done,
        BenchEvent::Planned(BenchKind::Sweep, 3),
        BenchEvent::Queries(0),
    ] {
        state = facts.next(state, e);
    }
    for i in 0..3 {
        assert_eq!((state.step, state.made), (BenchStep::Measure, i));
        state = facts.next(state, BenchEvent::Done);
    }
    assert_eq!((state.step, state.made), (BenchStep::Report, 3));
}

#[test]
fn runs_stop_where_they_must() {
    let facts = BenchFacts { has_dataset: false, no_plan: false };
    let start = facts.start();
    assert_eq!(facts.next(start, BenchEvent::Answer(false)).step, BenchStep::Failed);
    assert_eq!(facts.next(start, BenchEvent::Failure).step, BenchStep::Failed);
    let confirm = BenchState { step: BenchStep::Confirm, ..start };
    assert_eq!(facts.next(confirm, BenchEvent::Answer(false)).step, BenchStep::Aborted);
    let load = BenchState { step: BenchStep::LoadTruth, kind: BenchKind::Graph, total: 2, ..start };
    assert_eq!(facts.next(load, BenchEvent::Queries(0)).step, BenchStep::Failed);
    let target = BenchState { step: BenchStep::Measure, kind: BenchKind::Target, total: 1, ..start };
    assert_eq!(facts.next(target, BenchEvent::Done).step, BenchStep::Failed);
    let listing = json(LISTING);
    let plan = planned_for(&bench_args(), select_index(&listing, Some("graph")).ok().unwrap());
    assert_eq!(planned(&plan.ok().unwrap()), BenchEvent::Planned(BenchKind::Graph, 4));
    let facts = BenchFacts::of(&bench_args());
    assert_eq!(facts, BenchFacts { has_dataset: false, no_plan: false });
}
