use vrecall::args::{BenchArgs, BenchMode};
use vrecall::bench::{GraphInfo, IndexInfo};
use vrecall::decimal::{parse_decimal, parse_u64};
use vrecall::metric::Metric;
use vrecall::report::{
    graph_banner, graph_report, latency_band_table, mode_label, sample_query_lines, sweep_banner,
    sweep_report, target_banner, target_report, BandCells, GraphRow, SweepRow, TargetRow,
    TimingCells,
};
use vrecall::text::{
    ascii_lower_text, contains_text, dec_text, ends_with_text, int_text, number_list_text,
    trim_text,
};

fn cells(t: [&str; 6]) -> TimingCells {
    TimingCells {
        mean: t[0].into(),
        p50: t[1].into(),
        p90: t[2].into(),
        p95: t[3].into(),
        p99: t[4].into(),
        qps: t[5].into(),
    }
}

fn band(label: &'static str, edge: &str, count: usize, recall: &[&str]) -> BandCells {
    BandCells {
        label,
        edge: edge.into(),
        count,
        recall: recall.iter().map(|r| r.to_string()).collect(),
    }
}

fn info() -> IndexInfo {
    IndexInfo {
        count: 200000,
        dimension: 768,
        nlists: 448,
        name: "vector_cosine".into(),
        id: "c/1".into(),
    }
}

fn graph() -> GraphInfo {
    GraphInfo {
        count: 10,
        dimension: 96,
        name: "g".into(),
        metric: Metric::L2,
        max_degree: 48,
        alpha: "1.4".into(),
    }
}

fn args() -> BenchArgs {
    BenchArgs {
        gt_file: None,
        ann_dataset: None,
        query_file: None,
        gt_id_offset: 0,
        queries: 100,
        topk: vec![1, 10],
        nprobes: vec![1, 8],
        target_recall: None,
        autotune_timeout_sec: 3600,
        retune: false,
        gt_workers: 16,
        mode: BenchMode::Qps,
        clients: 4,
        index: None,
        search_list_size: None,
        rerank: false,
        no_plan: false,
        verbose: false,
    }
}

#[test]
fn sweep_report_is_laid_out_as_documented() {
    let row = |nprobe, recall: [&str; 4], t| SweepRow {
        nprobe,
        recall: recall.iter().map(|r| r.to_string()).collect(),
        loss: vec![None, None, None, None],
        timing: cells(t),
        bands: Vec::new(),
    };
    let rows = vec![
        row(1, ["0.720", "0.541", "0.468", "0.447"], ["2.3", "2.1", "3.0", "3.4", "4.1", "434.8"]),
        row(8, ["0.920", "0.831", "0.792", "0.781"], ["5.1", "4.8", "6.6", "7.3", "8.9", "196.1"]),
        row(512, ["1.000", "1.000", "0.999", "0.999"], ["198.7", "195.2", "221.0", "233.7", "254.9", "5.0"]),
    ];
    assert_eq!(
        sweep_report(&info(), &[1, 10, 50, 100], &rows, BenchMode::Latency, 16, false),
        "\nCosine recall report — 200000 vectors, dim=768, index 'vector_cosine' (nLists=448), latency (single client)\n\
         \n\
         nProbe | recall@  1 | recall@ 10 | recall@ 50 | recall@100 | mean_ms |    p50 |    p90 |    p95 |    p99 |      QPS\n\
         -------|------------|------------|------------|------------|---------|--------|--------|--------|--------|---------\n\
         \x20   1  |      0.720 |      0.541 |      0.468 |      0.447 |     2.3 |    2.1 |    3.0 |    3.4 |    4.1 |    434.8\n\
         \x20   8  |      0.920 |      0.831 |      0.792 |      0.781 |     5.1 |    4.8 |    6.6 |    7.3 |    8.9 |    196.1\n\
         \x20 512  |      1.000 |      1.000 |      0.999 |      0.999 |   198.7 |  195.2 |  221.0 |  233.7 |  254.9 |      5.0\n\
         \n"
    );
}

#[test]
fn verbose_sweep_adds_bands_and_losses() {
    let row = |loss: Option<&str>, bands| SweepRow {
        nprobe: 1,
        recall: vec!["0.500".into()],
        loss: vec![loss.map(|l| l.to_string()), None],
        timing: cells(["1.0", "1.0", "1.0", "1.0", "1.0", "1.0"]),
        bands,
    };
    let report = |rows| sweep_report(&info(), &[1, 10], &rows, BenchMode::Qps, 4, true);
    let text = report(vec![
        row(Some("+0.01234"), vec![band("p50", "5.0", 5, &["0.500", "0.250"])]),
        row(None, Vec::new()),
    ]);
    assert!(text.contains("(nLists=448), qps mode: 4 concurrent clients\n"));
    assert!(text.ends_with(
        "\n\nRecall by per-query latency band (do slower queries recall worse?):\n\
         nProbe=1:\n\
         \x20 band | up to ms | queries | recall@  1 | recall@ 10 |\n\
         -------------------------------------------------------\n\
         \x20 p50  |      5.0 |       5 |      0.500 |      0.250 |\n\
         \n\
         Mean similarity loss per result (truth mean sim - approx mean sim).\n\
         Near 0 means the approx misses are near-ties with the truth top-K.\n\
         nProbe |  loss@  1 |  loss@ 10 |\n\
         ----------------------------------\n\
         \x20   1  |   +0.01234 |       n/a  |\n\
         \x20   1  |       n/a  |       n/a  |\n\
         \n"
    ));
    let plain = report(vec![row(None, Vec::new())]);
    assert!(!plain.contains("latency band") && !plain.contains("Mean similarity loss"));
}

#[test]
fn target_report_counts_what_falls_below() {
    let rows = vec![
        TargetRow { k: 1, mean: "0.990".into(), least: "0.000".into(), fails: 1, fail_pct: "1.0".into() },
        TargetRow { k: 100, mean: "0.951".into(), least: "0.900".into(), fails: 12, fail_pct: "12.0".into() },
    ];
    let t = cells(["1.0", "2.0", "3.0", "4.0", "5.0", "6.0"]);
    let bands = vec![band("p50", "5.0", 50, &["0.500", "0.250"])];
    let text = |verbose| target_report(&info(), &[1, 100], "0.950", 100, &rows, &t, &bands, verbose);
    let plain = "\nTarget-recall report — 200000 vectors, dim=768, index 'vector_cosine' (nLists=448), targetRecall 0.950, 100 queries\n\
         \n\
         \x20  K   | mean recall | min recall | below target | fail %\n\
         -------|-------------|------------|--------------|--------\n\
         \x20    1 |     0.990   |    0.000   |      1/100   |   1.0%\n\
         \x20  100 |     0.951   |    0.900   |     12/100   |  12.0%\n\
         \n\
         Latency (ms): mean 1.0 | p50 2.0 | p90 3.0 | p95 4.0 | p99 5.0  |  throughput: 6.0 QPS.\n";
    assert_eq!(text(false), format!("{plain}\n"));
    assert_eq!(
        text(true),
        format!(
            "{plain}\nRecall by per-query latency band (do slower queries recall worse?):\n{}\n",
            latency_band_table(&[1, 100], &bands)
        )
    );
    assert_eq!(latency_band_table(&[1], &Vec::new()), "");
}

#[test]
fn graph_report_sweeps_cutoffs() {
    let row = |k, gap: Option<&str>, bands| GraphRow {
        k,
        recall: "0.900".into(),
        gap: gap.map(|g| g.to_string()),
        timing: cells(["1.0", "2.0", "3.0", "4.0", "5.0", "6.0"]),
        bands,
    };
    let rows = vec![row(1, None, Vec::new()), row(100, Some("+0.00100"), vec![band("p100", "9.5", 3, &["0.900"])])];
    let head = format!(
        "\nVector-graph recall report — 10 vectors, dim=96, index 'g' (metric=l2, maxDegree=48, alpha=1.40), latency (single client)\n\
         \n\
         \x20 topK | recall@K | dist_gap | mean_ms |    p50 |    p90 |    p95 |    p99 |      QPS\n\
         {}\n\
         \x20    1 |    0.900 |      n/a |     1.0 |    2.0 |    3.0 |    4.0 |    5.0 |      6.0\n\
         \x20  100 |    0.900 | +0.00100 |     1.0 |    2.0 |    3.0 |    4.0 |    5.0 |      6.0\n",
        "-".repeat(92)
    );
    let text = |verbose| graph_report(&graph(), "1.40", &rows, BenchMode::Latency, 1, verbose);
    assert_eq!(text(false), format!("{head}\n"));
    assert_eq!(
        text(true),
        format!(
            "{head}\nRecall by per-query latency band (do slower queries recall worse?):\n\
             topK=100:\n\
             \x20 band | up to ms | queries | recall@100 |\n\
             ------------------------------------------\n\
             \x20 p100 |      9.5 |       3 |      0.900 |\n\
             \n"
        )
    );
    let mut cosine = graph();
    cosine.metric = Metric::Cosine;
    assert!(graph_report(&cosine, "1.40", &Vec::new(), BenchMode::Latency, 1, true)
        .contains("| sim_loss |"));
}

#[test]
fn banners_tell_the_plan() {
    let rule = "================================================================\n";
    let a = args();
    assert_eq!(
        sweep_banner(&a, "db", "coll", &info(), &[1, 10], &[1, 8]),
        format!(
            "{rule}vrecall bench\n{rule}What we're going to do:\n\
             \x20 - Use existing collection 'db.coll'\n\
             \x20   - 200000 vectors, dim=768\n\
             \x20   - vector index: 'vector_cosine' (nLists=448)\n\
             \x20 - Ground truth: first 100 docs of 'coll' (brute-force COSINE_SIMILARITY, 16 workers)\n\
             \x20 - Query vectors: 100\n\
             \x20 - Recall cutoffs K: [1, 10]\n\
             \x20 - nProbe sweep: [1, 8]\n\
             \x20 - Measurement: qps mode: 4 concurrent clients\n\n"
        )
    );
    let mut with_file = args();
    with_file.gt_file = Some("f.hdf5".into());
    assert_eq!(
        target_banner(&with_file, "db", "coll", &info(), &[10], "0.950", "0.95"),
        format!(
            "{rule}vrecall bench (targetRecall mode)\n{rule}What we're going to do:\n\
             \x20 - Use existing collection 'db.coll'\n\
             \x20   - 200000 vectors, dim=768\n\
             \x20   - vector index: 'vector_cosine' (nLists=448)\n\
             \x20 - Ground truth: HDF5 file f.hdf5\n\
             \x20 - Query vectors: 100\n\
             \x20 - Recall cutoffs K: [10]\n\
             \x20 - Target recall: 0.950\n\
             \x20 - Ensure the index is autotuned for this recall, then query with\n\
             \x20   {{targetRecall: 0.95}} and count query points below the target.\n\
             \x20 - Measurement: qps mode: 4 concurrent clients\n\n"
        )
    );
    assert_eq!(
        graph_banner(&a, "db", "coll", &graph(), &[1, 10], "1.40"),
        format!(
            "{rule}vrecall bench (vector-graph)\n{rule}What we're going to do:\n\
             \x20 - Use existing collection 'db.coll'\n\
             \x20   - 10 vectors, dim=96\n\
             \x20   - vector-graph index: 'g' (metric=l2, maxDegree=48, alpha=1.40)\n\
             \x20 - Ground truth: first 100 docs of 'coll' (brute-force L2_DISTANCE, 16 workers)\n\
             \x20 - Query vectors: 100\n\
             \x20 - Recall cutoffs K (swept as the x-axis): [1, 10]\n\
             \x20 - The graph index has a single fixed operating point: no nProbe\n\
             \x20   sweep and no targetRecall. Each K runs LIMIT-K queries.\n\
             \x20 - Measurement: qps mode: 4 concurrent clients\n\n"
        )
    );
    assert_eq!(
        sample_query_lines("nProbe: 1", "RETURN 1"),
        "Sample approx query (nProbe: 1):\n  RETURN 1\n\n"
    );
    assert_eq!(mode_label(BenchMode::Latency, 4), "latency (single client)");
}

#[test]
fn texts_are_built_and_taken_apart() {
    assert_eq!(dec_text(0), "0");
    assert_eq!(dec_text(u64::MAX), u64::MAX.to_string());
    assert_eq!(int_text(i64::MIN), i64::MIN.to_string());
    assert_eq!(number_list_text(&[1, 10, 50]), "[1, 10, 50]");
    assert_eq!(number_list_text(&[]), "[]");
    assert!(contains_text("abcd", "bc") && contains_text("", "") && !contains_text("abcd", "cb"));
    assert!(ends_with_text("x-dot", "-dot") && !ends_with_text("dot", "-dot"));
    assert_eq!(ascii_lower_text("AbZ[É"), "abz[É");
    for text in ["  a b\t\n", "", "\u{3000}x\u{85}", "\u{200b}x", "\u{1680}\u{feff}"] {
        assert_eq!(trim_text(text), text.trim(), "{text:?}");
    }
}

#[test]
fn decimals_compare_as_numbers() {
    let d = |t: &str| parse_decimal(t).unwrap();
    let le = |a: &str, b: &str| d(a).is_at_most(&d(b));
    assert!(le("1", "1.0") && le("1.0", "1") && le("-1", "1e-9") && le("-0", "0") && le("0", "-0"));
    assert!(le("9e29", "1e30") && !le("1e30", "9e29") && le("1e-400", "1e400"));
    assert!(!le("1.0000000001", "1") && !le("0.1", "-5") && le("-5", "-4.999"));
    assert!(le("123.456", "1.23456e2") && le("1.23456e2", "123.456"));
    assert_eq!(d("012.50e1").positional_text().as_deref(), Some("125"));
    assert_eq!(d("-0.0012").positional_text().as_deref(), Some("-0.0012"));
    assert_eq!(d("1.4").scientific_text(), "14e-1");
    assert_eq!(d("0.00").scientific_text(), "0e-2");
    assert_eq!(parse_u64("00042"), Some(42));
}
