//! The banners and the reports of a benchmark. Numbers with a fraction are handed in as they are
//! shown.

use crate::args::{BenchArgs, BenchMode};
use crate::bench::{GraphInfo, IndexInfo};
use crate::metric::Metric;
use crate::text::{
    chars_of, dec_text, number_list_text, push_dec, push_left_padded, push_repeated,
    push_right_padded, usize_list_text,
};
use vstd::prelude::*;
use vstd::string::*;

verus! {

// ---------------------------------------------------------------------------
// Banners
// ---------------------------------------------------------------------------

/// How the measurement is driven.
pub open spec fn mode_text(mode: BenchMode, clients: usize) -> Seq<char> {
    match mode {
        BenchMode::Latency => "latency (single client)"@,
        BenchMode::Qps => "qps mode: "@ + crate::text::dec(clients as nat)
            + " concurrent clients"@,
    }
}

/// Short human-readable description of how the measurement is driven, for
/// banners, progress lines and reports.
pub fn mode_label(mode: BenchMode, clients: usize) -> (res: String)
    ensures
        res@ == mode_text(mode, clients),
{
    match mode {
        BenchMode::Latency => "latency (single client)".to_owned(),
        BenchMode::Qps => {
            let mut out = "qps mode: ".to_owned();
            push_dec(&mut out, clients as u64);
            out.append(" concurrent clients");
            out
        },
    }
}

/// Where the ground truth comes from; `function` is the AQL function of exact queries.
pub open spec fn truth_source(args: BenchArgs, coll: Seq<char>, function: Seq<char>) -> Seq<char> {
    match args.gt_file {
        Some(path) => "HDF5 file "@ + path@,
        None => "first "@ + crate::text::dec(args.queries as nat) + " docs of '"@ + coll
            + "' (brute-force "@ + function + ", "@ + crate::text::dec(args.gt_workers as nat)
            + " workers)"@,
    }
}

/// Where the ground truth comes from.
fn truth_text(args: &BenchArgs, coll: &str, function: &str) -> (res: String)
    ensures
        res@ == truth_source(*args, coll@, function@),
{
    match &args.gt_file {
        Some(path) => {
            let mut out = "HDF5 file ".to_owned();
            out.append(path.as_str());
            out
        },
        None => {
            let mut out = "first ".to_owned();
            push_dec(&mut out, args.queries as u64);
            out.append(" docs of '");
            out.append(coll);
            out.append("' (brute-force ");
            out.append(function);
            out.append(", ");
            push_dec(&mut out, args.gt_workers as u64);
            out.append(" workers)");
            out
        },
    }
}

/// With a single client the number of clients is not spoken of; with concurrent ones it is told,
/// so that the two ways, and different numbers, are told apart.
pub proof fn law_mode_is_told(a: usize, b: usize)
    ensures
        mode_text(BenchMode::Latency, a) == mode_text(BenchMode::Latency, b),
        mode_text(BenchMode::Latency, a) != mode_text(BenchMode::Qps, b),
        mode_text(BenchMode::Qps, a) == mode_text(BenchMode::Qps, b) ==> a == b,
        crate::text::same_but(
            mode_text(BenchMode::Qps, a),
            crate::text::dec(a as nat),
            mode_text(BenchMode::Qps, b),
            crate::text::dec(b as nat),
            "qps mode: "@,
            " concurrent clients"@,
        ),
{
    reveal_strlit("latency (single client)");
    reveal_strlit("qps mode: ");
    let head = "qps mode: "@;
    let tail = " concurrent clients"@;
    assert(mode_text(BenchMode::Latency, a)[0] == 'l');
    assert(mode_text(BenchMode::Qps, b)[0] == 'q');
    crate::text::lemma_pieces(Seq::empty(), head);
    crate::text::lemma_pieces(tail, Seq::empty());
    assert(Seq::<char>::empty() + head =~= head);
    assert(tail + Seq::<char>::empty() =~= tail);
    crate::text::lemma_same_but(
        head,
        crate::text::dec(a as nat),
        crate::text::dec(b as nat),
        tail,
        head,
        tail,
    );
    crate::decimal::law_numerals_read_back(a as u64, b as u64);
}

/// A file of ground truth is named wherever one is given, and nothing is then computed; else the
/// documents that are queried, the collection, the function and the workers are told.
pub proof fn law_truth_source_is_told(
    args: BenchArgs,
    coll: Seq<char>,
    function: Seq<char>,
    other: Seq<char>,
)
    ensures
        args.gt_file matches Some(path) ==> truth_source(args, coll, function) == "HDF5 file "@
            + path@ && truth_source(args, coll, function) == truth_source(args, coll, other),
        args.gt_file is None ==> crate::text::same_but(
            truth_source(args, coll, function),
            function,
            truth_source(args, coll, other),
            other,
            " docs of '"@ + coll + "' (brute-force "@,
            ", "@ + crate::text::dec(args.gt_workers as nat) + " workers)"@,
        ),
        args.gt_file is None ==> crate::text::begins_with(
            truth_source(args, coll, function),
            "first "@ + crate::text::dec(args.queries as nat),
        ),
{
    if args.gt_file is None {
        let first = "first "@ + crate::text::dec(args.queries as nat);
        let before = " docs of '"@ + coll + "' (brute-force "@;
        let after = ", "@ + crate::text::dec(args.gt_workers as nat) + " workers)"@;
        assert(truth_source(args, coll, function) =~= first + before + function + after);
        assert(truth_source(args, coll, other) =~= first + before + other + after);
        crate::text::lemma_pieces(first, before);
        crate::text::lemma_pieces(after, Seq::empty());
        assert(after + Seq::<char>::empty() =~= after);
        crate::text::lemma_same_but(first + before, function, other, after, before, after);
        assert(truth_source(args, coll, function) =~= first + (before + function + after));
        crate::text::lemma_pieces(first, before + function + after);
    }
}

/// The banners tell of the ground truth what the run computes: the function of the metric of the
/// truth, which for an IVF index is cosine.
pub proof fn law_banners_tell_the_truth(
    args: BenchArgs,
    db: Seq<char>,
    coll: Seq<char>,
    info: IndexInfo,
    graph: GraphInfo,
    ks: Seq<usize>,
    nprobes: Seq<u64>,
    shown: Seq<char>,
    target: Seq<char>,
)
    ensures
        crate::text::occurs(
            sweep_banner_text(args, db, coll, info, ks, nprobes),
            ")\n  - Ground truth: "@ + truth_source(args, coll, "COSINE_SIMILARITY"@)
                + "\n  - Query vectors: "@,
        ),
        crate::text::occurs(
            target_banner_text(args, db, coll, info, ks, shown, target),
            ")\n  - Ground truth: "@ + truth_source(args, coll, "COSINE_SIMILARITY"@)
                + "\n  - Query vectors: "@,
        ),
        crate::text::occurs(
            graph_banner_text(args, db, coll, graph, ks, shown),
            ")\n  - Ground truth: "@ + truth_source(
                args,
                coll,
                match graph.metric {
                    Metric::Cosine => "COSINE_SIMILARITY"@,
                    Metric::L2 => "L2_DISTANCE"@,
                },
            ) + "\n  - Query vectors: "@,
        ),
{
    lemma_sweep_banner(args, db, coll, info, ks, nprobes);
    lemma_target_banner(args, db, coll, info, ks, shown, target);
    lemma_graph_banner(args, db, coll, graph, ks, shown);
}

#[verifier::rlimit(40)]
proof fn lemma_sweep_banner(
    args: BenchArgs,
    db: Seq<char>,
    coll: Seq<char>,
    info: IndexInfo,
    ks: Seq<usize>,
    nprobes: Seq<u64>,
)
    ensures
        crate::text::occurs(
            sweep_banner_text(args, db, coll, info, ks, nprobes),
            ")\n  - Ground truth: "@ + truth_source(args, coll, "COSINE_SIMILARITY"@)
                + "\n  - Query vectors: "@,
        ),
{
    let truth = truth_source(args, coll, "COSINE_SIMILARITY"@);
    let head = "================================================================\nvrecall bench\n================================================================\nWhat we're going to do:\n  - Use existing collection '"@
        + db + "."@ + coll + "'\n    - "@ + crate::text::dec(info.count as nat)
        + " vectors, dim="@ + crate::text::dec(info.dimension as nat) + "\n    - vector index: '"@
        + info.name@ + "' (nLists="@ + crate::text::dec(info.nlists as nat);
    let mid = ")\n  - Ground truth: "@ + truth + "\n  - Query vectors: "@;
    let tail = crate::text::dec(args.queries as nat) + "\n  - Recall cutoffs K: "@
        + crate::text::number_list(crate::text::usize_nats(ks)) + "\n  - nProbe sweep: "@
        + crate::text::number_list(crate::text::nats(nprobes)) + "\n  - Measurement: "@
        + mode_text(args.mode, args.clients) + "\n\n"@;
    assert(sweep_banner_text(args, db, coll, info, ks, nprobes) =~= head + mid + tail);
    crate::text::lemma_middle(head, mid, tail);
}

#[verifier::rlimit(40)]
proof fn lemma_target_banner(
    args: BenchArgs,
    db: Seq<char>,
    coll: Seq<char>,
    info: IndexInfo,
    ks: Seq<usize>,
    shown: Seq<char>,
    target: Seq<char>,
)
    ensures
        crate::text::occurs(
            target_banner_text(args, db, coll, info, ks, shown, target),
            ")\n  - Ground truth: "@ + truth_source(args, coll, "COSINE_SIMILARITY"@)
                + "\n  - Query vectors: "@,
        ),
{
    let truth = truth_source(args, coll, "COSINE_SIMILARITY"@);
    let head = "================================================================\nvrecall bench (targetRecall mode)\n================================================================\nWhat we're going to do:\n  - Use existing collection '"@
        + db + "."@ + coll + "'\n    - "@ + crate::text::dec(info.count as nat)
        + " vectors, dim="@ + crate::text::dec(info.dimension as nat) + "\n    - vector index: '"@
        + info.name@ + "' (nLists="@ + crate::text::dec(info.nlists as nat);
    let mid = ")\n  - Ground truth: "@ + truth + "\n  - Query vectors: "@;
    let tail = crate::text::dec(args.queries as nat) + "\n  - Recall cutoffs K: "@
        + crate::text::number_list(crate::text::usize_nats(ks)) + "\n  - Target recall: "@ + shown
        + "\n  - Ensure the index is autotuned for this recall, then query with\n    {targetRecall: "@
        + target + "} and count query points below the target.\n  - Measurement: "@
        + mode_text(args.mode, args.clients) + "\n\n"@;
    assert(target_banner_text(args, db, coll, info, ks, shown, target) =~= head + mid + tail);
    crate::text::lemma_middle(head, mid, tail);
}

#[verifier::rlimit(40)]
proof fn lemma_graph_banner(
    args: BenchArgs,
    db: Seq<char>,
    coll: Seq<char>,
    graph: GraphInfo,
    ks: Seq<usize>,
    alpha: Seq<char>,
)
    ensures
        crate::text::occurs(
            graph_banner_text(args, db, coll, graph, ks, alpha),
            ")\n  - Ground truth: "@ + truth_source(
                args,
                coll,
                match graph.metric {
                    Metric::Cosine => "COSINE_SIMILARITY"@,
                    Metric::L2 => "L2_DISTANCE"@,
                },
            ) + "\n  - Query vectors: "@,
        ),
{
    let function = match graph.metric {
        Metric::Cosine => "COSINE_SIMILARITY"@,
        Metric::L2 => "L2_DISTANCE"@,
    };
    let truth = truth_source(args, coll, function);
    let head = "================================================================\nvrecall bench (vector-graph)\n================================================================\nWhat we're going to do:\n  - Use existing collection '"@
        + db + "."@ + coll + "'\n    - "@ + crate::text::dec(graph.count as nat)
        + " vectors, dim="@ + crate::text::dec(graph.dimension as nat)
        + "\n    - vector-graph index: '"@ + graph.name@ + "' (metric="@
        + crate::metric::metric_label(graph.metric) + ", maxDegree="@
        + crate::text::dec(graph.max_degree as nat) + ", alpha="@ + alpha;
    let mid = ")\n  - Ground truth: "@ + truth + "\n  - Query vectors: "@;
    let tail = crate::text::dec(args.queries as nat)
        + "\n  - Recall cutoffs K (swept as the x-axis): "@ + crate::text::number_list(
        crate::text::usize_nats(ks),
    )
        + "\n  - The graph index has a single fixed operating point: no nProbe\n    sweep and no targetRecall. Each K runs LIMIT-K queries.\n  - Measurement: "@
        + mode_text(args.mode, args.clients) + "\n\n"@;
    assert(graph_banner_text(args, db, coll, graph, ks, alpha) =~= head + mid + tail);
    crate::text::lemma_middle(head, mid, tail);
}

/// Every banner names the collection and ends with how the measurement is driven.
pub proof fn law_banners_tell_the_measurement(
    args: BenchArgs,
    db: Seq<char>,
    coll: Seq<char>,
    info: IndexInfo,
    graph: GraphInfo,
    ks: Seq<usize>,
    nprobes: Seq<u64>,
    shown: Seq<char>,
    target: Seq<char>,
)
    ensures
        ({
            let end = "  - Measurement: "@ + mode_text(args.mode, args.clients) + "\n\n"@;
            &&& crate::text::ends_in(sweep_banner_text(args, db, coll, info, ks, nprobes), end)
            &&& crate::text::ends_in(
                target_banner_text(args, db, coll, info, ks, shown, target),
                end,
            )
            &&& crate::text::ends_in(graph_banner_text(args, db, coll, graph, ks, shown), end)
        }),
{
    lemma_sweep_banner_end(args, db, coll, info, ks, nprobes);
    lemma_target_banner_end(args, db, coll, info, ks, shown, target);
    lemma_graph_banner_end(args, db, coll, graph, ks, shown);
}

proof fn lemma_sweep_banner_end(
    args: BenchArgs,
    db: Seq<char>,
    coll: Seq<char>,
    info: IndexInfo,
    ks: Seq<usize>,
    nprobes: Seq<u64>,
)
    ensures
        crate::text::ends_in(
            sweep_banner_text(args, db, coll, info, ks, nprobes),
            "  - Measurement: "@ + mode_text(args.mode, args.clients) + "\n\n"@,
        ),
{
    reveal_strlit("\n  - Measurement: ");
    reveal_strlit("  - Measurement: ");
    let text = sweep_banner_text(args, db, coll, info, ks, nprobes);
    let mode = mode_text(args.mode, args.clients) + "\n\n"@;
    let label = "\n  - Measurement: "@;
    let front = text.take(text.len() - mode.len() - label.len());
    assert(text =~= front + label + mode);
    lemma_mode_line(front, label, mode, "  - Measurement: "@);
    assert("  - Measurement: "@ + mode =~= "  - Measurement: "@ + mode_text(
        args.mode,
        args.clients,
    ) + "\n\n"@);
}

proof fn lemma_target_banner_end(
    args: BenchArgs,
    db: Seq<char>,
    coll: Seq<char>,
    info: IndexInfo,
    ks: Seq<usize>,
    shown: Seq<char>,
    target: Seq<char>,
)
    ensures
        crate::text::ends_in(
            target_banner_text(args, db, coll, info, ks, shown, target),
            "  - Measurement: "@ + mode_text(args.mode, args.clients) + "\n\n"@,
        ),
{
    reveal_strlit("} and count query points below the target.\n  - Measurement: ");
    reveal_strlit("  - Measurement: ");
    let text = target_banner_text(args, db, coll, info, ks, shown, target);
    let mode = mode_text(args.mode, args.clients) + "\n\n"@;
    let label = "} and count query points below the target.\n  - Measurement: "@;
    let front = text.take(text.len() - mode.len() - label.len());
    assert(text =~= front + label + mode);
    lemma_mode_line(front, label, mode, "  - Measurement: "@);
    assert("  - Measurement: "@ + mode =~= "  - Measurement: "@ + mode_text(
        args.mode,
        args.clients,
    ) + "\n\n"@);
}

proof fn lemma_graph_banner_end(
    args: BenchArgs,
    db: Seq<char>,
    coll: Seq<char>,
    graph: GraphInfo,
    ks: Seq<usize>,
    alpha: Seq<char>,
)
    ensures
        crate::text::ends_in(
            graph_banner_text(args, db, coll, graph, ks, alpha),
            "  - Measurement: "@ + mode_text(args.mode, args.clients) + "\n\n"@,
        ),
{
    reveal_strlit(
        "\n  - The graph index has a single fixed operating point: no nProbe\n    sweep and no targetRecall. Each K runs LIMIT-K queries.\n  - Measurement: ",
    );
    reveal_strlit("  - Measurement: ");
    let text = graph_banner_text(args, db, coll, graph, ks, alpha);
    let mode = mode_text(args.mode, args.clients) + "\n\n"@;
    let label = "\n  - The graph index has a single fixed operating point: no nProbe\n    sweep and no targetRecall. Each K runs LIMIT-K queries.\n  - Measurement: "@;
    let front = text.take(text.len() - mode.len() - label.len());
    assert(text =~= front + label + mode);
    lemma_mode_line(front, label, mode, "  - Measurement: "@);
    assert("  - Measurement: "@ + mode =~= "  - Measurement: "@ + mode_text(
        args.mode,
        args.clients,
    ) + "\n\n"@);
}

/// A text whose last label ends in `last` ends in it and what follows.
proof fn lemma_mode_line(front: Seq<char>, label: Seq<char>, mode: Seq<char>, last: Seq<char>)
    requires
        label.len() >= last.len(),
        label.skip(label.len() - last.len()) =~= last,
    ensures
        crate::text::ends_in(front + label + mode, last + mode),
{
    let before = front + label.take(label.len() - last.len());
    assert(label =~= label.take(label.len() - last.len()) + last);
    assert(front + label + mode =~= before + (last + mode));
    crate::text::lemma_pieces(before, last + mode);
}

/// The banner of a vector-graph index names its metric.
#[verifier::rlimit(60)]
pub proof fn law_graph_banner_names_the_metric(
    args: BenchArgs,
    db: Seq<char>,
    coll: Seq<char>,
    graph: GraphInfo,
    ks: Seq<usize>,
    alpha: Seq<char>,
)
    ensures
        crate::text::occurs(
            graph_banner_text(args, db, coll, graph, ks, alpha),
            "' (metric="@ + (match graph.metric {
                Metric::Cosine => "cosine"@,
                Metric::L2 => "l2"@,
            }) + ", maxDegree="@ + crate::text::dec(graph.max_degree as nat) + ", alpha="@ + alpha
                + ")\n  - Ground truth: "@,
        ),
{
    let head = "================================================================\nvrecall bench (vector-graph)\n================================================================\nWhat we're going to do:\n  - Use existing collection '"@
        + db + "."@ + coll + "'\n    - "@ + crate::text::dec(graph.count as nat)
        + " vectors, dim="@ + crate::text::dec(graph.dimension as nat)
        + "\n    - vector-graph index: '"@ + graph.name@;
    let label = match graph.metric {
        Metric::Cosine => "cosine"@,
        Metric::L2 => "l2"@,
    };
    let mid = "' (metric="@ + label + ", maxDegree="@ + crate::text::dec(graph.max_degree as nat)
        + ", alpha="@ + alpha + ")\n  - Ground truth: "@;
    let tail = truth_source(args, coll, crate::metric::exact_function(graph.metric))
        + "\n  - Query vectors: "@ + crate::text::dec(args.queries as nat)
        + "\n  - Recall cutoffs K (swept as the x-axis): "@ + crate::text::number_list(
        crate::text::usize_nats(ks),
    )
        + "\n  - The graph index has a single fixed operating point: no nProbe\n    sweep and no targetRecall. Each K runs LIMIT-K queries.\n  - Measurement: "@
        + mode_text(args.mode, args.clients) + "\n\n"@;
    assert(graph_banner_text(args, db, coll, graph, ks, alpha) =~= head + mid + tail);
    crate::text::lemma_middle(head, mid, tail);
}

/// The titles of the reports tell how the measurement was driven.
#[verifier::rlimit(40)]
pub proof fn law_titles_tell_the_measurement(
    info: IndexInfo,
    graph: GraphInfo,
    ks: Seq<usize>,
    alpha: Seq<char>,
    mode: BenchMode,
    clients: usize,
)
    ensures
        crate::text::occurs(
            sweep_title(info, ks, mode, clients),
            "), "@ + mode_text(mode, clients) + "\n\n"@,
        ),
        crate::text::occurs(
            graph_title(graph, alpha, mode, clients),
            "), "@ + mode_text(mode, clients) + "\n\n  topK | recall@K | "@,
        ),
{
    let a = "\nCosine recall report — "@ + crate::text::dec(info.count as nat) + " vectors, dim="@
        + crate::text::dec(info.dimension as nat) + ", index '"@ + info.name@ + "' (nLists="@
        + crate::text::dec(info.nlists as nat);
    let b = "), "@ + mode_text(mode, clients) + "\n\n"@;
    let c = sweep_header(ks) + "\n"@ + rule_under(sweep_header(ks)) + "\n"@;
    assert(sweep_title(info, ks, mode, clients) =~= a + b + c);
    crate::text::lemma_middle(a, b, c);
    let x = "\nVector-graph recall report — "@ + crate::text::dec(graph.count as nat)
        + " vectors, dim="@ + crate::text::dec(graph.dimension as nat) + ", index '"@ + graph.name@
        + "' (metric="@ + crate::metric::metric_label(graph.metric) + ", maxDegree="@
        + crate::text::dec(graph.max_degree as nat) + ", alpha="@ + alpha;
    let y = "), "@ + mode_text(mode, clients) + "\n\n  topK | recall@K | "@;
    let z = crate::text::pad_left(gap_label(graph.metric), 8)
        + " | mean_ms |    p50 |    p90 |    p95 |    p99 |      QPS\n"@ + crate::text::repeated(
        '-',
        92,
    ) + "\n"@;
    assert(graph_title(graph, alpha, mode, clients) =~= x + y + z);
    crate::text::lemma_middle(x, y, z);
}

/// The banner of a sweep.
pub open spec fn sweep_banner_text(
    args: BenchArgs,
    db: Seq<char>,
    coll: Seq<char>,
    info: IndexInfo,
    ks: Seq<usize>,
    nprobes: Seq<u64>,
) -> Seq<char> {
    "================================================================\nvrecall bench\n================================================================\nWhat we're going to do:\n  - Use existing collection '"@
        + db + "."@ + coll + "'\n    - "@ + crate::text::dec(info.count as nat)
        + " vectors, dim="@ + crate::text::dec(info.dimension as nat) + "\n    - vector index: '"@
        + info.name@ + "' (nLists="@ + crate::text::dec(info.nlists as nat)
        + ")\n  - Ground truth: "@ + truth_source(args, coll, "COSINE_SIMILARITY"@)
        + "\n  - Query vectors: "@ + crate::text::dec(args.queries as nat)
        + "\n  - Recall cutoffs K: "@ + crate::text::number_list(crate::text::usize_nats(ks))
        + "\n  - nProbe sweep: "@ + crate::text::number_list(crate::text::nats(nprobes))
        + "\n  - Measurement: "@ + mode_text(args.mode, args.clients) + "\n\n"@
}

/// The banner of a sweep.
pub fn sweep_banner(
    args: &BenchArgs,
    db: &str,
    coll: &str,
    info: &IndexInfo,
    ks: &[usize],
    nprobes: &[u64],
) -> (res: String)
    ensures
        res@ == sweep_banner_text(*args, db@, coll@, *info, ks@, nprobes@),
{
    let mut out = "================================================================\nvrecall bench\n================================================================\nWhat we're going to do:\n  - Use existing collection '".to_owned();
    out.append(db);
    out.append(".");
    out.append(coll);
    out.append("'\n    - ");
    push_dec(&mut out, info.count);
    out.append(" vectors, dim=");
    push_dec(&mut out, info.dimension);
    out.append("\n    - vector index: '");
    out.append(info.name.as_str());
    out.append("' (nLists=");
    push_dec(&mut out, info.nlists);
    out.append(")\n  - Ground truth: ");
    out.append(truth_text(args, coll, "COSINE_SIMILARITY").as_str());
    out.append("\n  - Query vectors: ");
    push_dec(&mut out, args.queries as u64);
    out.append("\n  - Recall cutoffs K: ");
    out.append(usize_list_text(ks).as_str());
    out.append("\n  - nProbe sweep: ");
    out.append(number_list_text(nprobes).as_str());
    out.append("\n  - Measurement: ");
    out.append(mode_label(args.mode, args.clients).as_str());
    out.append("\n\n");
    out
}

/// The banner of a benchmark for a target recall: `shown` is the target as it is shown, `target`
/// as it is sent.
pub open spec fn target_banner_text(
    args: BenchArgs,
    db: Seq<char>,
    coll: Seq<char>,
    info: IndexInfo,
    ks: Seq<usize>,
    shown: Seq<char>,
    target: Seq<char>,
) -> Seq<char> {
    "================================================================\nvrecall bench (targetRecall mode)\n================================================================\nWhat we're going to do:\n  - Use existing collection '"@
        + db + "."@ + coll + "'\n    - "@ + crate::text::dec(info.count as nat)
        + " vectors, dim="@ + crate::text::dec(info.dimension as nat) + "\n    - vector index: '"@
        + info.name@ + "' (nLists="@ + crate::text::dec(info.nlists as nat)
        + ")\n  - Ground truth: "@ + truth_source(args, coll, "COSINE_SIMILARITY"@)
        + "\n  - Query vectors: "@ + crate::text::dec(args.queries as nat)
        + "\n  - Recall cutoffs K: "@ + crate::text::number_list(crate::text::usize_nats(ks))
        + "\n  - Target recall: "@ + shown
        + "\n  - Ensure the index is autotuned for this recall, then query with\n    {targetRecall: "@
        + target + "} and count query points below the target.\n  - Measurement: "@
        + mode_text(args.mode, args.clients) + "\n\n"@
}

/// The banner of a benchmark for a target recall.
pub fn target_banner(
    args: &BenchArgs,
    db: &str,
    coll: &str,
    info: &IndexInfo,
    ks: &[usize],
    shown: &str,
    target: &str,
) -> (res: String)
    ensures
        res@ == target_banner_text(*args, db@, coll@, *info, ks@, shown@, target@),
{
    let mut out = "================================================================\nvrecall bench (targetRecall mode)\n================================================================\nWhat we're going to do:\n  - Use existing collection '".to_owned();
    out.append(db);
    out.append(".");
    out.append(coll);
    out.append("'\n    - ");
    push_dec(&mut out, info.count);
    out.append(" vectors, dim=");
    push_dec(&mut out, info.dimension);
    out.append("\n    - vector index: '");
    out.append(info.name.as_str());
    out.append("' (nLists=");
    push_dec(&mut out, info.nlists);
    out.append(")\n  - Ground truth: ");
    out.append(truth_text(args, coll, "COSINE_SIMILARITY").as_str());
    out.append("\n  - Query vectors: ");
    push_dec(&mut out, args.queries as u64);
    out.append("\n  - Recall cutoffs K: ");
    out.append(usize_list_text(ks).as_str());
    out.append("\n  - Target recall: ");
    out.append(shown);
    out.append("\n  - Ensure the index is autotuned for this recall, then query with\n    {targetRecall: ");
    out.append(target);
    out.append("} and count query points below the target.\n  - Measurement: ");
    out.append(mode_label(args.mode, args.clients).as_str());
    out.append("\n\n");
    out
}

/// The banner of a benchmark of a vector-graph index, with alpha as it is shown.
pub open spec fn graph_banner_text(
    args: BenchArgs,
    db: Seq<char>,
    coll: Seq<char>,
    graph: GraphInfo,
    ks: Seq<usize>,
    alpha: Seq<char>,
) -> Seq<char> {
    "================================================================\nvrecall bench (vector-graph)\n================================================================\nWhat we're going to do:\n  - Use existing collection '"@
        + db + "."@ + coll + "'\n    - "@ + crate::text::dec(graph.count as nat)
        + " vectors, dim="@ + crate::text::dec(graph.dimension as nat)
        + "\n    - vector-graph index: '"@ + graph.name@ + "' (metric="@
        + crate::metric::metric_label(graph.metric) + ", maxDegree="@
        + crate::text::dec(graph.max_degree as nat) + ", alpha="@ + alpha
        + ")\n  - Ground truth: "@
        + truth_source(args, coll, crate::metric::exact_function(graph.metric))
        + "\n  - Query vectors: "@ + crate::text::dec(args.queries as nat)
        + "\n  - Recall cutoffs K (swept as the x-axis): "@
        + crate::text::number_list(crate::text::usize_nats(ks))
        + "\n  - The graph index has a single fixed operating point: no nProbe\n    sweep and no targetRecall. Each K runs LIMIT-K queries.\n  - Measurement: "@
        + mode_text(args.mode, args.clients) + "\n\n"@
}

/// The banner of a benchmark of a vector-graph index, with alpha as it is shown.
pub fn graph_banner(
    args: &BenchArgs,
    db: &str,
    coll: &str,
    graph: &GraphInfo,
    ks: &[usize],
    alpha: &str,
) -> (res: String)
    ensures
        res@ == graph_banner_text(*args, db@, coll@, *graph, ks@, alpha@),
{
    let mut out = "================================================================\nvrecall bench (vector-graph)\n================================================================\nWhat we're going to do:\n  - Use existing collection '".to_owned();
    out.append(db);
    out.append(".");
    out.append(coll);
    out.append("'\n    - ");
    push_dec(&mut out, graph.count);
    out.append(" vectors, dim=");
    push_dec(&mut out, graph.dimension);
    out.append("\n    - vector-graph index: '");
    out.append(graph.name.as_str());
    out.append("' (metric=");
    out.append(graph.metric.label());
    out.append(", maxDegree=");
    push_dec(&mut out, graph.max_degree);
    out.append(", alpha=");
    out.append(alpha);
    out.append(")\n  - Ground truth: ");
    out.append(truth_text(args, coll, graph.metric.exact_fn()).as_str());
    out.append("\n  - Query vectors: ");
    push_dec(&mut out, args.queries as u64);
    out.append("\n  - Recall cutoffs K (swept as the x-axis): ");
    out.append(usize_list_text(ks).as_str());
    out.append("\n  - The graph index has a single fixed operating point: no nProbe\n    sweep and no targetRecall. Each K runs LIMIT-K queries.\n  - Measurement: ");
    out.append(mode_label(args.mode, args.clients).as_str());
    out.append("\n\n");
    out
}

/// The given approx query, as it is shown before its execution plan.
pub fn sample_query_lines(label: &str, query: &str) -> (res: String)
    ensures
        res@ == "Sample approx query ("@ + label@ + "):\n  "@ + query@ + "\n\n"@,
{
    let mut out = "Sample approx query (".to_owned();
    out.append(label);
    out.append("):\n  ");
    out.append(query);
    out.append("\n\n");
    out
}

// ---------------------------------------------------------------------------
// Cells
// ---------------------------------------------------------------------------

/// The times of a measurement, each as it is shown.
pub struct TimingCells {
    pub mean: String,
    pub p50: String,
    pub p90: String,
    pub p95: String,
    pub p99: String,
    pub qps: String,
}

/// The columns of the times, up to the end of the line.
pub open spec fn timing_text(t: TimingCells) -> Seq<char> {
    " "@ + crate::text::pad_left(t.mean@, 7) + " | "@ + crate::text::pad_left(t.p50@, 6) + " | "@
        + crate::text::pad_left(t.p90@, 6) + " | "@ + crate::text::pad_left(t.p95@, 6) + " | "@
        + crate::text::pad_left(t.p99@, 6) + " | "@ + crate::text::pad_left(t.qps@, 8) + "\n"@
}

impl TimingCells {
    /// The columns of the times, up to the end of the line.
    fn text(&self) -> (res: String)
        ensures
            res@ == timing_text(*self),
    {
        let mut out = " ".to_owned();
        push_left_padded(&mut out, self.mean.as_str(), 7);
        out.append(" | ");
        push_left_padded(&mut out, self.p50.as_str(), 6);
        out.append(" | ");
        push_left_padded(&mut out, self.p90.as_str(), 6);
        out.append(" | ");
        push_left_padded(&mut out, self.p95.as_str(), 6);
        out.append(" | ");
        push_left_padded(&mut out, self.p99.as_str(), 6);
        out.append(" | ");
        push_left_padded(&mut out, self.qps.as_str(), 8);
        out.append("\n");
        out
    }
}

/// A band of the latency breakdown: its upper edge, how many queries fell in it, and their mean
/// recall for each cutoff.
pub struct BandCells {
    pub label: &'static str,
    pub edge: String,
    pub count: usize,
    pub recall: Vec<String>,
}

/// Columns of recalls.
pub open spec fn recall_columns(recall: Seq<String>) -> Seq<char>
    decreases recall.len(),
{
    if recall.len() == 0 {
        Seq::empty()
    } else {
        recall_columns(recall.drop_last()) + ("     "@ + crate::text::pad_left(
            recall.last()@,
            6,
        ) + " |"@)
    }
}

/// Columns of recalls.
fn recall_cells(recall: &Vec<String>) -> (res: String)
    ensures
        res@ == recall_columns(recall@),
{
    let mut out = String::new();
    assert(out@ =~= recall_columns(recall@.take(0)));
    for i in 0..recall.len()
        invariant
            out@ == recall_columns(recall@.take(i as int)),
    {
        assert(recall@.take(i + 1).drop_last() =~= recall@.take(i as int));
        let mut cell = "     ".to_owned();
        push_left_padded(&mut cell, recall[i].as_str(), 6);
        cell.append(" |");
        out.append(cell.as_str());
    }
    assert(recall@.take(recall@.len() as int) =~= recall@);
    out
}

/// Headings of columns, one for each cutoff, each of `title` and the cutoff.
pub open spec fn k_columns(title: Seq<char>, ks: Seq<usize>) -> Seq<char>
    decreases ks.len(),
{
    if ks.len() == 0 {
        Seq::empty()
    } else {
        k_columns(title, ks.drop_last()) + (title + crate::text::pad_left(
            crate::text::dec(ks.last() as nat),
            3,
        ) + " |"@)
    }
}

/// Headings of columns, one for each cutoff, each of `title` and the cutoff.
fn k_headings(title: &str, ks: &[usize]) -> (res: String)
    ensures
        res@ == k_columns(title@, ks@),
{
    let mut out = String::new();
    assert(out@ =~= k_columns(title@, ks@.take(0)));
    for i in 0..ks.len()
        invariant
            out@ == k_columns(title@, ks@.take(i as int)),
    {
        assert(ks@.take(i + 1).drop_last() =~= ks@.take(i as int));
        let mut cell = title.to_owned();
        push_left_padded(&mut cell, dec_text(ks[i] as u64).as_str(), 3);
        cell.append(" |");
        out.append(cell.as_str());
    }
    assert(ks@.take(ks@.len() as int) =~= ks@);
    out
}

// ---------------------------------------------------------------------------
// Latency bands
// ---------------------------------------------------------------------------

/// The heading of the latency breakdown.
pub open spec fn band_header(ks: Seq<usize>) -> Seq<char> {
    "  band | up to ms | queries |"@ + k_columns(" recall@"@, ks)
}

/// The line of a band.
pub open spec fn band_line(band: BandCells) -> Seq<char> {
    "  "@ + crate::text::pad_right(band.label@, 4) + " | "@ + crate::text::pad_left(band.edge@, 8)
        + " | "@ + crate::text::pad_left(crate::text::dec(band.count as nat), 7) + " |"@
        + recall_columns(band.recall@) + "\n"@
}

/// The lines of bands.
pub open spec fn band_lines(bands: Seq<BandCells>) -> Seq<char>
    decreases bands.len(),
{
    if bands.len() == 0 {
        Seq::empty()
    } else {
        band_lines(bands.drop_last()) + band_line(bands.last())
    }
}

/// The "recall by per-query latency band" table: one row per latency percentile band, showing
/// how many queries fell in it, the latency at its upper edge, and the mean recall@K of those
/// queries. Nothing where there are no bands.
pub open spec fn band_table(ks: Seq<usize>, bands: Seq<BandCells>) -> Seq<char> {
    if bands.len() == 0 {
        ""@
    } else {
        band_header(ks) + "\n"@ + crate::text::repeated('-', band_header(ks).len()) + "\n"@
            + band_lines(bands)
    }
}

/// The "recall by per-query latency band" table.
pub fn latency_band_table(ks: &[usize], bands: &Vec<BandCells>) -> (res: String)
    ensures
        res@ == band_table(ks@, bands@),
{
    if bands.len() == 0 {
        return "".to_owned();
    }
    let mut lines = String::new();
    assert(lines@ =~= band_lines(bands@.take(0)));
    for i in 0..bands.len()
        invariant
            lines@ == band_lines(bands@.take(i as int)),
    {
        assert(bands@.take(i + 1).drop_last() =~= bands@.take(i as int));
        let ghost band = bands@[i as int];
        let mut line = "  ".to_owned();
        push_right_padded(&mut line, bands[i].label, 4);
        line.append(" | ");
        push_left_padded(&mut line, bands[i].edge.as_str(), 8);
        line.append(" | ");
        push_left_padded(&mut line, dec_text(bands[i].count as u64).as_str(), 7);
        line.append(" |");
        line.append(recall_cells(&bands[i].recall).as_str());
        line.append("\n");
        lines.append(line.as_str());
    }
    assert(bands@.take(bands@.len() as int) =~= bands@);
    let mut header = "  band | up to ms | queries |".to_owned();
    header.append(k_headings(" recall@", ks).as_str());
    let width = header.as_str().unicode_len();
    let mut out = header;
    out.append("\n");
    push_repeated(&mut out, '-', width);
    out.append("\n");
    out.append(lines.as_str());
    out
}

// ---------------------------------------------------------------------------
// The report of a sweep
// ---------------------------------------------------------------------------

/// The measurement of one nProbe value, each number as it is shown. The loss is missing where
/// the ground truth has no scores.
pub struct SweepRow {
    pub nprobe: u64,
    pub recall: Vec<String>,
    pub loss: Vec<Option<String>>,
    pub timing: TimingCells,
    pub bands: Vec<BandCells>,
}

/// The heading of the report of a sweep.
pub open spec fn sweep_header(ks: Seq<usize>) -> Seq<char> {
    "nProbe |"@ + k_columns(" recall@"@, ks)
        + " mean_ms |    p50 |    p90 |    p95 |    p99 |      QPS"@
}

/// The rule under a heading: dashes, but for the bars between the columns.
pub open spec fn rule_under(header: Seq<char>) -> Seq<char> {
    header.map_values(
        |c: char|
            if c == '|' {
                '|'
            } else {
                '-'
            },
    )
}

/// The rule under a heading.
fn rule_line(header: &str) -> (res: String)
    ensures
        res@ == rule_under(header@),
{
    let chars = chars_of(header);
    let mut out = String::new();
    for i in 0..chars.len()
        invariant
            out@ == rule_under(chars@).take(i as int),
    {
        out.push(
            if chars[i] == '|' {
                '|'
            } else {
                '-'
            },
        );
        assert(out@ =~= rule_under(chars@).take(i + 1));
    }
    assert(out@ =~= rule_under(chars@));
    out
}

/// The first column of a row of a sweep.
pub open spec fn nprobe_cell(nprobe: u64) -> Seq<char> {
    " "@ + crate::text::pad_left(crate::text::dec(nprobe as nat), 4) + "  |"@
}

/// The first column of a row of a sweep.
fn nprobe_text(nprobe: u64) -> (res: String)
    ensures
        res@ == nprobe_cell(nprobe),
{
    let mut out = " ".to_owned();
    push_left_padded(&mut out, dec_text(nprobe).as_str(), 4);
    out.append("  |");
    out
}

/// The row of an nProbe value.
pub open spec fn sweep_line(row: SweepRow) -> Seq<char> {
    nprobe_cell(row.nprobe) + recall_columns(row.recall@) + timing_text(row.timing)
}

/// The rows of a sweep.
pub open spec fn sweep_lines(rows: Seq<SweepRow>) -> Seq<char>
    decreases rows.len(),
{
    if rows.len() == 0 {
        Seq::empty()
    } else {
        sweep_lines(rows.drop_last()) + sweep_line(rows.last())
    }
}

/// The latency breakdowns of a sweep, those that are not empty.
pub open spec fn sweep_bands(ks: Seq<usize>, rows: Seq<SweepRow>) -> Seq<char>
    decreases rows.len(),
{
    if rows.len() == 0 {
        Seq::empty()
    } else {
        let front = sweep_bands(ks, rows.drop_last());
        if rows.last().bands@.len() == 0 {
            front
        } else {
            front + ("nProbe="@ + crate::text::dec(rows.last().nprobe as nat) + ":\n"@
                + band_table(ks, rows.last().bands@))
        }
    }
}

/// Columns of losses.
pub open spec fn loss_columns(loss: Seq<Option<String>>) -> Seq<char>
    decreases loss.len(),
{
    if loss.len() == 0 {
        Seq::empty()
    } else {
        loss_columns(loss.drop_last()) + (match loss.last() {
            Some(x) => "   "@ + crate::text::pad_left(x@, 8) + " |"@,
            None => "       n/a  |"@,
        })
    }
}

/// The rows of the losses of a sweep.
pub open spec fn loss_lines(rows: Seq<SweepRow>) -> Seq<char>
    decreases rows.len(),
{
    if rows.len() == 0 {
        Seq::empty()
    } else {
        loss_lines(rows.drop_last()) + (nprobe_cell(rows.last().nprobe) + loss_columns(
            rows.last().loss@,
        ) + "\n"@)
    }
}

/// The table of the similarity losses of a sweep.
pub open spec fn loss_table(ks: Seq<usize>, rows: Seq<SweepRow>) -> Seq<char> {
    "\nMean similarity loss per result (truth mean sim - approx mean sim).\nNear 0 means the approx misses are near-ties with the truth top-K.\nnProbe |"@
        + k_columns("  loss@"@, ks) + "\n"@ + crate::text::repeated('-', 8 + ks.len() * 13)
        + "\n"@ + loss_lines(rows)
}

/// Whether a measurement has a latency breakdown.
pub open spec fn any_bands(rows: Seq<SweepRow>) -> bool {
    exists|i: int| 0 <= i < rows.len() && (#[trigger] rows[i]).bands@.len() > 0
}

/// Whether a measurement has a similarity loss.
pub open spec fn any_loss(rows: Seq<SweepRow>) -> bool {
    exists|i: int, j: int|
        0 <= i < rows.len() && 0 <= j < rows[i].loss@.len() && (
        #[trigger] rows[i].loss@[j]) is Some
}

/// What is shown on top with `--verbose`: the latency breakdowns and the losses, as far as there
/// are any.
pub open spec fn sweep_details(ks: Seq<usize>, rows: Seq<SweepRow>) -> Seq<char> {
    (if any_bands(rows) {
        "\nRecall by per-query latency band (do slower queries recall worse?):\n"@
            + sweep_bands(ks, rows)
    } else {
        ""@
    }) + (if any_loss(rows) {
        loss_table(ks, rows)
    } else {
        ""@
    })
}

/// The title and the heading of the report of a sweep.
pub open spec fn sweep_title(
    info: IndexInfo,
    ks: Seq<usize>,
    mode: BenchMode,
    clients: usize,
) -> Seq<char> {
    "\nCosine recall report — "@ + crate::text::dec(info.count as nat) + " vectors, dim="@
        + crate::text::dec(info.dimension as nat) + ", index '"@ + info.name@ + "' (nLists="@
        + crate::text::dec(info.nlists as nat) + "), "@ + mode_text(mode, clients) + "\n\n"@
        + sweep_header(ks) + "\n"@ + rule_under(sweep_header(ks)) + "\n"@
}

/// The report of a sweep.
pub open spec fn sweep_report_text(
    info: IndexInfo,
    ks: Seq<usize>,
    rows: Seq<SweepRow>,
    mode: BenchMode,
    clients: usize,
    verbose: bool,
) -> Seq<char> {
    sweep_title(info, ks, mode, clients) + sweep_lines(rows) + (if verbose {
        sweep_details(ks, rows)
    } else {
        ""@
    }) + "\n"@
}

/// The rows of a sweep.
fn sweep_rows(rows: &Vec<SweepRow>) -> (res: String)
    ensures
        res@ == sweep_lines(rows@),
{
    let mut out = String::new();
    assert(out@ =~= sweep_lines(rows@.take(0)));
    for i in 0..rows.len()
        invariant
            out@ == sweep_lines(rows@.take(i as int)),
    {
        assert(rows@.take(i + 1).drop_last() =~= rows@.take(i as int));
        let mut line = nprobe_text(rows[i].nprobe);
        line.append(recall_cells(&rows[i].recall).as_str());
        line.append(rows[i].timing.text().as_str());
        out.append(line.as_str());
    }
    assert(rows@.take(rows@.len() as int) =~= rows@);
    out
}

/// The latency breakdowns of a sweep.
fn sweep_band_tables(ks: &[usize], rows: &Vec<SweepRow>) -> (res: (String, bool))
    ensures
        res.0@ == sweep_bands(ks@, rows@),
        res.1 == any_bands(rows@),
{
    let mut out = String::new();
    let mut any = false;
    assert(out@ =~= sweep_bands(ks@, rows@.take(0)));
    for i in 0..rows.len()
        invariant
            out@ == sweep_bands(ks@, rows@.take(i as int)),
            any == exists|k: int| 0 <= k < i && (#[trigger] rows@[k]).bands@.len() > 0,
    {
        assert(rows@.take(i + 1).drop_last() =~= rows@.take(i as int));
        if rows[i].bands.len() > 0 {
            let mut block = "nProbe=".to_owned();
            push_dec(&mut block, rows[i].nprobe);
            block.append(":\n");
            block.append(latency_band_table(ks, &rows[i].bands).as_str());
            out.append(block.as_str());
            any = true;
            assert(rows@[i as int].bands@.len() > 0);
        }
    }
    assert(rows@.take(rows@.len() as int) =~= rows@);
    (out, any)
}

/// Columns of losses, and whether there is any.
fn loss_cells(loss: &Vec<Option<String>>) -> (res: (String, bool))
    ensures
        res.0@ == loss_columns(loss@),
        res.1 == exists|j: int| 0 <= j < loss@.len() && (#[trigger] loss@[j]) is Some,
{
    let mut out = String::new();
    let mut any = false;
    assert(out@ =~= loss_columns(loss@.take(0)));
    for i in 0..loss.len()
        invariant
            out@ == loss_columns(loss@.take(i as int)),
            any == exists|j: int| 0 <= j < i && (#[trigger] loss@[j]) is Some,
    {
        assert(loss@.take(i + 1).drop_last() =~= loss@.take(i as int));
        match &loss[i] {
            Some(x) => {
                let mut cell = "   ".to_owned();
                push_left_padded(&mut cell, x.as_str(), 8);
                cell.append(" |");
                out.append(cell.as_str());
                any = true;
                assert(loss@[i as int] is Some);
            },
            None => {
                out.append("       n/a  |");
            },
        }
    }
    assert(loss@.take(loss@.len() as int) =~= loss@);
    (out, any)
}

/// The rows of the losses of a sweep, and whether there is any loss.
fn loss_rows(rows: &Vec<SweepRow>) -> (res: (String, bool))
    ensures
        res.0@ == loss_lines(rows@),
        res.1 == any_loss(rows@),
{
    let mut out = String::new();
    let mut any = false;
    assert(out@ =~= loss_lines(rows@.take(0)));
    for i in 0..rows.len()
        invariant
            out@ == loss_lines(rows@.take(i as int)),
            any == exists|k: int, j: int|
                0 <= k < i && 0 <= j < rows@[k].loss@.len() && (#[trigger] rows@[k].loss@[j]) is Some,
    {
        assert(rows@.take(i + 1).drop_last() =~= rows@.take(i as int));
        let (cells, some) = loss_cells(&rows[i].loss);
        let mut line = nprobe_text(rows[i].nprobe);
        line.append(cells.as_str());
        line.append("\n");
        out.append(line.as_str());
        if some {
            any = true;
        }
    }
    assert(rows@.take(rows@.len() as int) =~= rows@);
    (out, any)
}

/// What is shown on top with `--verbose`.
fn sweep_detail_lines(ks: &[usize], rows: &Vec<SweepRow>) -> (res: String)
    requires
        8 + ks@.len() * 13 <= usize::MAX,
    ensures
        res@ == sweep_details(ks@, rows@),
{
    let (bands, any_band) = sweep_band_tables(ks, rows);
    let (losses, some_loss) = loss_rows(rows);
    let mut out = if any_band {
        let mut block = "\nRecall by per-query latency band (do slower queries recall worse?):\n".to_owned();
        block.append(bands.as_str());
        block
    } else {
        "".to_owned()
    };
    if some_loss {
        let mut block =
            "\nMean similarity loss per result (truth mean sim - approx mean sim).\nNear 0 means the approx misses are near-ties with the truth top-K.\nnProbe |".to_owned();
        block.append(k_headings("  loss@", ks).as_str());
        block.append("\n");
        push_repeated(&mut block, '-', 8 + ks.len() * 13);
        block.append("\n");
        block.append(losses.as_str());
        out.append(block.as_str());
    } else {
        out.append("");
    }
    out
}

/// The report of a sweep: recall and times for each nProbe value; with `verbose` also the
/// latency breakdowns and the similarity losses.
pub fn sweep_report(
    info: &IndexInfo,
    ks: &[usize],
    rows: &Vec<SweepRow>,
    mode: BenchMode,
    clients: usize,
    verbose: bool,
) -> (res: String)
    requires
        8 + ks@.len() * 13 <= usize::MAX,
    ensures
        res@ == sweep_report_text(*info, ks@, rows@, mode, clients, verbose),
{
    let mut header = "nProbe |".to_owned();
    header.append(k_headings(" recall@", ks).as_str());
    header.append(" mean_ms |    p50 |    p90 |    p95 |    p99 |      QPS");
    let rule = rule_line(header.as_str());
    let mut out = "\nCosine recall report — ".to_owned();
    push_dec(&mut out, info.count);
    out.append(" vectors, dim=");
    push_dec(&mut out, info.dimension);
    out.append(", index '");
    out.append(info.name.as_str());
    out.append("' (nLists=");
    push_dec(&mut out, info.nlists);
    out.append("), ");
    out.append(mode_label(mode, clients).as_str());
    out.append("\n\n");
    out.append(header.as_str());
    out.append("\n");
    out.append(rule.as_str());
    out.append("\n");
    out.append(sweep_rows(rows).as_str());
    if verbose {
        out.append(sweep_detail_lines(ks, rows).as_str());
    } else {
        out.append("");
    }
    out.append("\n");
    out
}

// ---------------------------------------------------------------------------
// The report for a target recall
// ---------------------------------------------------------------------------

/// The recall at one cutoff, each number as it is shown: the mean and the least over the
/// queries, and how many fell below the target.
pub struct TargetRow {
    pub k: usize,
    pub mean: String,
    pub least: String,
    pub fails: usize,
    pub fail_pct: String,
}

/// The row of a cutoff.
pub open spec fn target_line(row: TargetRow, queries: usize) -> Seq<char> {
    " "@ + crate::text::pad_left(crate::text::dec(row.k as nat), 5) + " |    "@
        + crate::text::pad_left(row.mean@, 6) + "   |   "@ + crate::text::pad_left(row.least@, 6)
        + "   |   "@ + crate::text::pad_left(crate::text::dec(row.fails as nat), 4) + "/"@
        + crate::text::pad_right(crate::text::dec(queries as nat), 4) + "  | "@
        + crate::text::pad_left(row.fail_pct@, 5) + "%\n"@
}

/// The rows of cutoffs.
pub open spec fn target_lines(rows: Seq<TargetRow>, queries: usize) -> Seq<char>
    decreases rows.len(),
{
    if rows.len() == 0 {
        Seq::empty()
    } else {
        target_lines(rows.drop_last(), queries) + target_line(rows.last(), queries)
    }
}

/// The title and the heading of the report for a target recall.
pub open spec fn target_title(info: IndexInfo, shown: Seq<char>, queries: usize) -> Seq<char> {
    "\nTarget-recall report — "@ + crate::text::dec(info.count as nat) + " vectors, dim="@
        + crate::text::dec(info.dimension as nat) + ", index '"@ + info.name@ + "' (nLists="@
        + crate::text::dec(info.nlists as nat) + "), targetRecall "@ + shown + ", "@
        + crate::text::dec(queries as nat)
        + " queries\n\n   K   | mean recall | min recall | below target | fail %\n-------|-------------|------------|--------------|--------\n"@
}

/// The line of the times.
pub open spec fn latency_line(t: TimingCells) -> Seq<char> {
    "\nLatency (ms): mean "@ + t.mean@ + " | p50 "@ + t.p50@ + " | p90 "@ + t.p90@ + " | p95 "@
        + t.p95@ + " | p99 "@ + t.p99@ + "  |  throughput: "@ + t.qps@ + " QPS.\n"@
}

/// The report for a target recall.
pub open spec fn target_report_text(
    info: IndexInfo,
    ks: Seq<usize>,
    shown: Seq<char>,
    queries: usize,
    rows: Seq<TargetRow>,
    timing: TimingCells,
    bands: Seq<BandCells>,
    verbose: bool,
) -> Seq<char> {
    target_title(info, shown, queries) + target_lines(rows, queries) + latency_line(timing) + (
    if verbose && bands.len() > 0 {
        "\nRecall by per-query latency band (do slower queries recall worse?):\n"@
            + band_table(ks, bands)
    } else {
        ""@
    }) + "\n"@
}

/// The line of the times.
fn latency_text(timing: &TimingCells) -> (res: String)
    ensures
        res@ == latency_line(*timing),
{
    let ghost t = *timing;
    let mut out = "\nLatency (ms): mean ".to_owned();
    out.append(timing.mean.as_str());
    out.append(" | p50 ");
    out.append(timing.p50.as_str());
    out.append(" | p90 ");
    out.append(timing.p90.as_str());
    out.append(" | p95 ");
    out.append(timing.p95.as_str());
    out.append(" | p99 ");
    out.append(timing.p99.as_str());
    out.append("  |  throughput: ");
    out.append(timing.qps.as_str());
    out.append(" QPS.\n");
    out
}

/// The rows of cutoffs.
fn target_rows(rows: &Vec<TargetRow>, queries: usize) -> (res: String)
    ensures
        res@ == target_lines(rows@, queries),
{
    let mut out = String::new();
    assert(out@ =~= target_lines(rows@.take(0), queries));
    for i in 0..rows.len()
        invariant
            out@ == target_lines(rows@.take(i as int), queries),
    {
        assert(rows@.take(i + 1).drop_last() =~= rows@.take(i as int));
        let mut line = " ".to_owned();
        push_left_padded(&mut line, dec_text(rows[i].k as u64).as_str(), 5);
        line.append(" |    ");
        push_left_padded(&mut line, rows[i].mean.as_str(), 6);
        line.append("   |   ");
        push_left_padded(&mut line, rows[i].least.as_str(), 6);
        line.append("   |   ");
        push_left_padded(&mut line, dec_text(rows[i].fails as u64).as_str(), 4);
        line.append("/");
        push_right_padded(&mut line, dec_text(queries as u64).as_str(), 4);
        line.append("  | ");
        push_left_padded(&mut line, rows[i].fail_pct.as_str(), 5);
        line.append("%\n");
        out.append(line.as_str());
    }
    assert(rows@.take(rows@.len() as int) =~= rows@);
    out
}

/// The report for a target recall, `shown` being the target as it is shown.
pub fn target_report(
    info: &IndexInfo,
    ks: &[usize],
    shown: &str,
    queries: usize,
    rows: &Vec<TargetRow>,
    timing: &TimingCells,
    bands: &Vec<BandCells>,
    verbose: bool,
) -> (res: String)
    ensures
        res@ == target_report_text(
            *info,
            ks@,
            shown@,
            queries,
            rows@,
            *timing,
            bands@,
            verbose,
        ),
{
    let mut out = "\nTarget-recall report — ".to_owned();
    push_dec(&mut out, info.count);
    out.append(" vectors, dim=");
    push_dec(&mut out, info.dimension);
    out.append(", index '");
    out.append(info.name.as_str());
    out.append("' (nLists=");
    push_dec(&mut out, info.nlists);
    out.append("), targetRecall ");
    out.append(shown);
    out.append(", ");
    push_dec(&mut out, queries as u64);
    out.append(" queries\n\n   K   | mean recall | min recall | below target | fail %\n-------|-------------|------------|--------------|--------\n");
    out.append(target_rows(rows, queries).as_str());
    out.append(latency_text(timing).as_str());
    if verbose && bands.len() > 0 {
        let mut block = "\nRecall by per-query latency band (do slower queries recall worse?):\n".to_owned();
        block.append(latency_band_table(ks, bands).as_str());
        out.append(block.as_str());
    } else {
        out.append("");
    }
    out.append("\n");
    out
}

// ---------------------------------------------------------------------------
// The report of a vector-graph index
// ---------------------------------------------------------------------------

/// One row of the vector-graph report: a single query topK (which drives the
/// LIMIT and the fixed internal search-list size), with its recall and timing,
/// each number as it is shown.
pub struct GraphRow {
    pub k: usize,
    pub recall: String,
    pub gap: Option<String>,
    pub timing: TimingCells,
    pub bands: Vec<BandCells>,
}

/// The name of the score gap of a metric.
pub open spec fn gap_label(metric: Metric) -> Seq<char> {
    match metric {
        Metric::Cosine => "sim_loss"@,
        Metric::L2 => "dist_gap"@,
    }
}

/// The score gap as it is shown.
pub open spec fn gap_text(gap: Option<String>) -> Seq<char> {
    match gap {
        Some(g) => g@,
        None => "n/a"@,
    }
}

/// The row of a cutoff.
pub open spec fn graph_line(row: GraphRow) -> Seq<char> {
    " "@ + crate::text::pad_left(crate::text::dec(row.k as nat), 5) + " |   "@
        + crate::text::pad_left(row.recall@, 6) + " | "@
        + crate::text::pad_left(gap_text(row.gap), 8) + " |"@ + timing_text(row.timing)
}

/// The rows of cutoffs.
pub open spec fn graph_lines(rows: Seq<GraphRow>) -> Seq<char>
    decreases rows.len(),
{
    if rows.len() == 0 {
        Seq::empty()
    } else {
        graph_lines(rows.drop_last()) + graph_line(rows.last())
    }
}

/// The latency breakdowns, those that are not empty.
pub open spec fn graph_bands(rows: Seq<GraphRow>) -> Seq<char>
    decreases rows.len(),
{
    if rows.len() == 0 {
        Seq::empty()
    } else {
        let front = graph_bands(rows.drop_last());
        if rows.last().bands@.len() == 0 {
            front
        } else {
            front + ("topK="@ + crate::text::dec(rows.last().k as nat) + ":\n"@ + band_table(
                seq![rows.last().k],
                rows.last().bands@,
            ))
        }
    }
}

/// Whether a measurement has a latency breakdown.
pub open spec fn any_graph_bands(rows: Seq<GraphRow>) -> bool {
    exists|i: int| 0 <= i < rows.len() && (#[trigger] rows[i]).bands@.len() > 0
}

/// The title and the heading of the report of a vector-graph index.
pub open spec fn graph_title(
    graph: GraphInfo,
    alpha: Seq<char>,
    mode: BenchMode,
    clients: usize,
) -> Seq<char> {
    "\nVector-graph recall report — "@ + crate::text::dec(graph.count as nat) + " vectors, dim="@
        + crate::text::dec(graph.dimension as nat) + ", index '"@ + graph.name@ + "' (metric="@
        + crate::metric::metric_label(graph.metric) + ", maxDegree="@
        + crate::text::dec(graph.max_degree as nat) + ", alpha="@ + alpha + "), "@
        + mode_text(mode, clients) + "\n\n  topK | recall@K | "@
        + crate::text::pad_left(gap_label(graph.metric), 8)
        + " | mean_ms |    p50 |    p90 |    p95 |    p99 |      QPS\n"@
        + crate::text::repeated('-', 92) + "\n"@
}

/// The report of a vector-graph index.
pub open spec fn graph_report_text(
    graph: GraphInfo,
    alpha: Seq<char>,
    rows: Seq<GraphRow>,
    mode: BenchMode,
    clients: usize,
    verbose: bool,
) -> Seq<char> {
    graph_title(graph, alpha, mode, clients) + graph_lines(rows) + (if verbose && any_graph_bands(
        rows,
    ) {
        "\nRecall by per-query latency band (do slower queries recall worse?):\n"@
            + graph_bands(rows)
    } else {
        ""@
    }) + "\n"@
}

/// The row of a cutoff.
fn graph_row_text(row: &GraphRow) -> (res: String)
    ensures
        res@ == graph_line(*row),
{
    let gap = match &row.gap {
        Some(g) => g.clone(),
        None => "n/a".to_owned(),
    };
    let mut out = " ".to_owned();
    push_left_padded(&mut out, dec_text(row.k as u64).as_str(), 5);
    out.append(" |   ");
    push_left_padded(&mut out, row.recall.as_str(), 6);
    out.append(" | ");
    push_left_padded(&mut out, gap.as_str(), 8);
    out.append(" |");
    out.append(row.timing.text().as_str());
    out
}

/// The rows of cutoffs.
fn graph_rows(rows: &Vec<GraphRow>) -> (res: String)
    ensures
        res@ == graph_lines(rows@),
{
    let mut out = String::new();
    assert(out@ =~= graph_lines(rows@.take(0)));
    for i in 0..rows.len()
        invariant
            out@ == graph_lines(rows@.take(i as int)),
    {
        assert(rows@.take(i + 1).drop_last() =~= rows@.take(i as int));
        out.append(graph_row_text(&rows[i]).as_str());
    }
    assert(rows@.take(rows@.len() as int) =~= rows@);
    out
}

/// The latency breakdowns.
fn graph_band_tables(rows: &Vec<GraphRow>) -> (res: (String, bool))
    ensures
        res.0@ == graph_bands(rows@),
        res.1 == any_graph_bands(rows@),
{
    let mut out = String::new();
    let mut any = false;
    assert(out@ =~= graph_bands(rows@.take(0)));
    for i in 0..rows.len()
        invariant
            out@ == graph_bands(rows@.take(i as int)),
            any == exists|k: int| 0 <= k < i && (#[trigger] rows@[k]).bands@.len() > 0,
    {
        assert(rows@.take(i + 1).drop_last() =~= rows@.take(i as int));
        if rows[i].bands.len() > 0 {
            let mut block = "topK=".to_owned();
            push_dec(&mut block, rows[i].k as u64);
            block.append(":\n");
            let ks: Vec<usize> = vec![rows[i].k];
            assert(ks@ =~= seq![rows@[i as int].k]);
            block.append(latency_band_table(&ks, &rows[i].bands).as_str());
            out.append(block.as_str());
            any = true;
            assert(rows@[i as int].bands@.len() > 0);
        }
    }
    assert(rows@.take(rows@.len() as int) =~= rows@);
    (out, any)
}

/// The report of a vector-graph index: recall, score gap and times for each cutoff; with
/// `verbose` also the latency breakdowns. Alpha is handed in as it is shown.
pub fn graph_report(
    graph: &GraphInfo,
    alpha: &str,
    rows: &Vec<GraphRow>,
    mode: BenchMode,
    clients: usize,
    verbose: bool,
) -> (res: String)
    ensures
        res@ == graph_report_text(*graph, alpha@, rows@, mode, clients, verbose),
{
    let gap_name = if graph.metric.is_similarity() {
        "sim_loss"
    } else {
        "dist_gap"
    };
    let mut out = "\nVector-graph recall report — ".to_owned();
    push_dec(&mut out, graph.count);
    out.append(" vectors, dim=");
    push_dec(&mut out, graph.dimension);
    out.append(", index '");
    out.append(graph.name.as_str());
    out.append("' (metric=");
    out.append(graph.metric.label());
    out.append(", maxDegree=");
    push_dec(&mut out, graph.max_degree);
    out.append(", alpha=");
    out.append(alpha);
    out.append("), ");
    out.append(mode_label(mode, clients).as_str());
    out.append("\n\n  topK | recall@K | ");
    push_left_padded(&mut out, gap_name, 8);
    out.append(" | mean_ms |    p50 |    p90 |    p95 |    p99 |      QPS\n");
    push_repeated(&mut out, '-', 92);
    out.append("\n");
    out.append(graph_rows(rows).as_str());
    let (bands, any) = graph_band_tables(rows);
    if verbose && any {
        let mut block = "\nRecall by per-query latency band (do slower queries recall worse?):\n".to_owned();
        block.append(bands.as_str());
        out.append(block.as_str());
    } else {
        out.append("");
    }
    out.append("\n");
    out
}

/// The rule under the heading of a sweep is as long as the heading and has its bars where the
/// heading has them.
pub proof fn law_rule_aligns(header: Seq<char>, i: int)
    requires
        0 <= i < header.len(),
    ensures
        rule_under(header).len() == header.len(),
        rule_under(header)[i] == '|' <==> header[i] == '|',
        rule_under(header)[i] == '|' || rule_under(header)[i] == '-',
{
}

/// Every row of a sweep has its line, in the order of the rows, with its nProbe value in front;
/// so has every row of the losses.
pub proof fn law_sweep_shows_every_row(a: Seq<SweepRow>, b: Seq<SweepRow>, row: SweepRow)
    ensures
        sweep_lines(a + b) == sweep_lines(a) + sweep_lines(b),
        loss_lines(a + b) == loss_lines(a) + loss_lines(b),
        crate::text::begins_with(
            sweep_lines(seq![row]),
            " "@ + crate::text::pad_left(crate::text::dec(row.nprobe as nat), 4) + "  |"@,
        ),
        crate::text::begins_with(
            loss_lines(seq![row]),
            " "@ + crate::text::pad_left(crate::text::dec(row.nprobe as nat), 4) + "  |"@,
        ),
        crate::text::ends_in(sweep_lines(seq![row]), timing_text(row.timing)),
{
    lemma_sweep_row(row);
    lemma_rows_add(a, b);
}

#[verifier::rlimit(40)]
proof fn lemma_sweep_row(row: SweepRow)
    ensures
        crate::text::begins_with(
            sweep_lines(seq![row]),
            " "@ + crate::text::pad_left(crate::text::dec(row.nprobe as nat), 4) + "  |"@,
        ),
        crate::text::begins_with(
            loss_lines(seq![row]),
            " "@ + crate::text::pad_left(crate::text::dec(row.nprobe as nat), 4) + "  |"@,
        ),
        crate::text::ends_in(sweep_lines(seq![row]), timing_text(row.timing)),
{
    let one = seq![row];
    let cell = nprobe_cell(row.nprobe);
    let recall = recall_columns(row.recall@);
    let timing = timing_text(row.timing);
    let loss = loss_columns(row.loss@) + "\n"@;
    assert(one.drop_last() =~= Seq::empty());
    assert(sweep_lines(Seq::empty()) == Seq::<char>::empty());
    assert(loss_lines(Seq::empty()) == Seq::<char>::empty());
    assert(sweep_lines(one) == Seq::<char>::empty() + (cell + recall + timing));
    assert(loss_lines(one) == Seq::<char>::empty() + (cell + loss_columns(row.loss@) + "\n"@));
    assert(sweep_lines(one) =~= cell + (recall + timing));
    assert(sweep_lines(one) =~= (cell + recall) + timing);
    assert(loss_lines(one) =~= cell + loss);
    crate::text::lemma_pieces(cell, recall + timing);
    crate::text::lemma_pieces(cell + recall, timing);
    crate::text::lemma_pieces(cell, loss);
}

proof fn lemma_rows_add(a: Seq<SweepRow>, b: Seq<SweepRow>)
    ensures
        sweep_lines(a + b) == sweep_lines(a) + sweep_lines(b),
        loss_lines(a + b) == loss_lines(a) + loss_lines(b),
    decreases b.len(),
{
    if b.len() == 0 {
        assert(a + b =~= a);
        assert(sweep_lines(b) == Seq::<char>::empty() && loss_lines(b) == Seq::<char>::empty());
        assert(sweep_lines(a) + Seq::<char>::empty() =~= sweep_lines(a));
        assert(loss_lines(a) + Seq::<char>::empty() =~= loss_lines(a));
    } else {
        let front = b.drop_last();
        lemma_rows_add(a, front);
        assert((a + b).drop_last() =~= a + front);
        assert((a + b).last() == b.last());
        let line = sweep_line(b.last());
        let loss = nprobe_cell(b.last().nprobe) + loss_columns(b.last().loss@) + "\n"@;
        assert(sweep_lines(a + b) == sweep_lines(a + front) + line);
        assert(loss_lines(a + b) == loss_lines(a + front) + loss);
        assert(sweep_lines(a) + sweep_lines(front) + line =~= sweep_lines(a) + (sweep_lines(front)
            + line));
        assert(loss_lines(a) + loss_lines(front) + loss =~= loss_lines(a) + (loss_lines(front)
            + loss));
    }
}

/// Every cutoff of the other reports has its line, in the order of the cutoffs, with the cutoff
/// in front.
pub proof fn law_reports_show_every_cutoff(
    a: Seq<TargetRow>,
    b: Seq<TargetRow>,
    c: Seq<GraphRow>,
    d: Seq<GraphRow>,
    row: TargetRow,
    graph_row: GraphRow,
    queries: usize,
)
    ensures
        target_lines(a + b, queries) == target_lines(a, queries) + target_lines(b, queries),
        graph_lines(c + d) == graph_lines(c) + graph_lines(d),
        crate::text::begins_with(
            target_lines(seq![row], queries),
            " "@ + crate::text::pad_left(crate::text::dec(row.k as nat), 5) + " |"@,
        ),
        crate::text::begins_with(
            graph_lines(seq![graph_row]),
            " "@ + crate::text::pad_left(crate::text::dec(graph_row.k as nat), 5) + " |"@,
        ),
        crate::text::ends_in(graph_lines(seq![graph_row]), timing_text(graph_row.timing)),
{
    lemma_target_row(row, queries);
    lemma_graph_row(graph_row);
    lemma_target_rows_add(a, b, queries);
    lemma_graph_rows_add(c, d);
}

proof fn lemma_target_rows_add(a: Seq<TargetRow>, b: Seq<TargetRow>, queries: usize)
    ensures
        target_lines(a + b, queries) == target_lines(a, queries) + target_lines(b, queries),
    decreases b.len(),
{
    if b.len() == 0 {
        assert(a + b =~= a);
        assert(target_lines(b, queries) == Seq::<char>::empty());
        assert(target_lines(a, queries) + Seq::<char>::empty() =~= target_lines(a, queries));
    } else {
        let front = b.drop_last();
        lemma_target_rows_add(a, front, queries);
        assert((a + b).drop_last() =~= a + front);
        assert((a + b).last() == b.last());
        let line = target_line(b.last(), queries);
        assert(target_lines(a + b, queries) == target_lines(a + front, queries) + line);
        assert(target_lines(a, queries) + target_lines(front, queries) + line =~= target_lines(
            a,
            queries,
        ) + (target_lines(front, queries) + line));
    }
}

proof fn lemma_graph_rows_add(a: Seq<GraphRow>, b: Seq<GraphRow>)
    ensures
        graph_lines(a + b) == graph_lines(a) + graph_lines(b),
    decreases b.len(),
{
    if b.len() == 0 {
        assert(a + b =~= a);
        assert(graph_lines(b) == Seq::<char>::empty());
        assert(graph_lines(a) + Seq::<char>::empty() =~= graph_lines(a));
    } else {
        let front = b.drop_last();
        lemma_graph_rows_add(a, front);
        assert((a + b).drop_last() =~= a + front);
        assert((a + b).last() == b.last());
        let line = graph_line(b.last());
        assert(graph_lines(a + b) == graph_lines(a + front) + line);
        assert(graph_lines(a) + graph_lines(front) + line =~= graph_lines(a) + (graph_lines(front)
            + line));
    }
}

#[verifier::rlimit(40)]
proof fn lemma_target_row(row: TargetRow, queries: usize)
    ensures
        crate::text::begins_with(
            target_lines(seq![row], queries),
            " "@ + crate::text::pad_left(crate::text::dec(row.k as nat), 5) + " |"@,
        ),
{
    reveal_strlit(" |");
    reveal_strlit(" |    ");
    reveal_strlit("    ");
    let one = seq![row];
    assert(one.drop_last() =~= Seq::empty());
    assert(target_lines(Seq::empty(), queries) =~= Seq::empty());
    assert(target_lines(one, queries) =~= target_line(row, queries));
    let cell = " "@ + crate::text::pad_left(crate::text::dec(row.k as nat), 5) + " |"@;
    assert(" |    "@ =~= " |"@ + "    "@);
    let rest = "    "@ + crate::text::pad_left(row.mean@, 6) + "   |   "@ + crate::text::pad_left(
        row.least@,
        6,
    ) + "   |   "@ + crate::text::pad_left(crate::text::dec(row.fails as nat), 4) + "/"@
        + crate::text::pad_right(crate::text::dec(queries as nat), 4) + "  | "@
        + crate::text::pad_left(row.fail_pct@, 5) + "%\n"@;
    assert(target_line(row, queries) =~= cell + rest);
    crate::text::lemma_pieces(cell, rest);
}

#[verifier::rlimit(40)]
proof fn lemma_graph_row(row: GraphRow)
    ensures
        crate::text::begins_with(
            graph_lines(seq![row]),
            " "@ + crate::text::pad_left(crate::text::dec(row.k as nat), 5) + " |"@,
        ),
        crate::text::ends_in(graph_lines(seq![row]), timing_text(row.timing)),
{
    reveal_strlit(" |");
    reveal_strlit(" |   ");
    reveal_strlit("   ");
    let one = seq![row];
    assert(one.drop_last() =~= Seq::empty());
    assert(graph_lines(Seq::empty()) =~= Seq::empty());
    assert(graph_lines(one) =~= graph_line(row));
    let cell = " "@ + crate::text::pad_left(crate::text::dec(row.k as nat), 5) + " |"@;
    assert(" |   "@ =~= " |"@ + "   "@);
    let mid = "   "@ + crate::text::pad_left(row.recall@, 6) + " | "@ + crate::text::pad_left(
        gap_text(row.gap),
        8,
    ) + " |"@;
    assert(graph_line(row) =~= cell + (mid + timing_text(row.timing)));
    assert(graph_line(row) =~= (cell + mid) + timing_text(row.timing));
    crate::text::lemma_pieces(cell, mid + timing_text(row.timing));
    crate::text::lemma_pieces(cell + mid, timing_text(row.timing));
}

/// Every column stands in its place: the columns of two lists of recalls, cutoffs or losses are
/// those of the one and then those of the other, and every column ends in a bar. A loss that is
/// not known is told as such.
pub proof fn law_columns_follow_one_another(
    a: Seq<String>,
    b: Seq<String>,
    ks: Seq<usize>,
    more: Seq<usize>,
    title: Seq<char>,
    k: usize,
)
    ensures
        recall_columns(a + b) == recall_columns(a) + recall_columns(b),
        k_columns(title, ks + more) == k_columns(title, ks) + k_columns(title, more),
        k_columns(title, seq![k]) == title + crate::text::pad_left(crate::text::dec(k as nat), 3)
            + " |"@,
        loss_columns(seq![None]) == "       n/a  |"@,
    decreases b.len() + more.len(),
{
    assert(seq![k].drop_last() =~= Seq::empty());
    assert(k_columns(title, Seq::empty()) =~= Seq::empty());
    assert(k_columns(title, seq![k]) =~= title + crate::text::pad_left(
        crate::text::dec(k as nat),
        3,
    ) + " |"@);
    assert(seq![None::<String>].drop_last() =~= Seq::empty());
    assert(loss_columns(Seq::empty()) =~= Seq::empty());
    assert(loss_columns(seq![None]) =~= "       n/a  |"@);
    if b.len() > 0 {
        law_columns_follow_one_another(a, b.drop_last(), ks, more, title, k);
        assert((a + b).drop_last() =~= a + b.drop_last());
        assert(recall_columns(a + b) =~= recall_columns(a) + recall_columns(b));
    } else {
        assert(a + b =~= a);
        assert(recall_columns(a) + recall_columns(b) =~= recall_columns(a));
        if more.len() > 0 {
            law_columns_follow_one_another(a, b, ks, more.drop_last(), title, k);
            assert((ks + more).drop_last() =~= ks + more.drop_last());
            assert(k_columns(title, ks + more) =~= k_columns(title, ks) + k_columns(title, more));
        } else {
            assert(ks + more =~= ks);
            assert(k_columns(title, ks) + k_columns(title, more) =~= k_columns(title, ks));
        }
    }
}

/// Every latency band has its line, in the order of the bands; without bands there is no table.
pub proof fn law_every_band_is_shown(
    ks: Seq<usize>,
    a: Seq<BandCells>,
    b: Seq<BandCells>,
    band: BandCells,
)
    ensures
        band_lines(a + b) == band_lines(a) + band_lines(b),
        band_lines(seq![band]) == "  "@ + crate::text::pad_right(band.label@, 4) + " | "@
            + crate::text::pad_left(band.edge@, 8) + " | "@ + crate::text::pad_left(
            crate::text::dec(band.count as nat),
            7,
        ) + " |"@ + recall_columns(band.recall@) + "\n"@,
        a.len() == 0 ==> band_table(ks, a) == ""@,
        a.len() > 0 ==> crate::text::ends_in(band_table(ks, a), band_lines(a)),
        a.len() > 0 ==> crate::text::begins_with(
            band_table(ks, a),
            "  band | up to ms | queries |"@ + k_columns(" recall@"@, ks) + "\n"@,
        ),
    decreases b.len(),
{
    assert(seq![band].drop_last() =~= Seq::empty());
    assert(band_lines(Seq::empty()) =~= Seq::empty());
    assert(band_lines(seq![band]) =~= band_line(band));
    if a.len() > 0 {
        let head = band_header(ks) + "\n"@;
        let rule = crate::text::repeated('-', band_header(ks).len()) + "\n"@;
        assert(band_table(ks, a) =~= (head + rule) + band_lines(a));
        assert(band_table(ks, a) =~= head + (rule + band_lines(a)));
        crate::text::lemma_pieces(head + rule, band_lines(a));
        crate::text::lemma_pieces(head, rule + band_lines(a));
    }
    if b.len() == 0 {
        assert(a + b =~= a);
        assert(band_lines(a) + band_lines(b) =~= band_lines(a));
    } else {
        law_every_band_is_shown(ks, a, b.drop_last(), band);
        assert((a + b).drop_last() =~= a + b.drop_last());
        assert(band_lines(a + b) =~= band_lines(a) + band_lines(b));
    }
}

/// Verbosity only adds to a report: title and rows are the same, and behind them stand the
/// latency breakdowns and the losses, as far as there are any.
#[verifier::rlimit(40)]
pub proof fn law_verbose_only_adds(
    info: IndexInfo,
    ks: Seq<usize>,
    rows: Seq<SweepRow>,
    mode: BenchMode,
    clients: usize,
)
    ensures
        crate::text::begins_with(
            sweep_report_text(info, ks, rows, mode, clients, true),
            sweep_title(info, ks, mode, clients) + sweep_lines(rows),
        ),
        sweep_report_text(info, ks, rows, mode, clients, false) == sweep_title(
            info,
            ks,
            mode,
            clients,
        ) + sweep_lines(rows) + "\n"@,
        (forall|i: int| 0 <= i < rows.len() ==> (#[trigger] rows[i]).bands@.len() == 0) && (forall|
            i: int,
            j: int,
        |
            0 <= i < rows.len() && 0 <= j < rows[i].loss@.len() ==> (
            #[trigger] rows[i].loss@[j]) is None) ==> sweep_report_text(
            info,
            ks,
            rows,
            mode,
            clients,
            true,
        ) == sweep_report_text(info, ks, rows, mode, clients, false),
        (exists|i: int| 0 <= i < rows.len() && (#[trigger] rows[i]).bands@.len() > 0)
            ==> crate::text::occurs(
            sweep_report_text(info, ks, rows, mode, clients, true),
            "\nRecall by per-query latency band (do slower queries recall worse?):\n"@
                + sweep_bands(ks, rows),
        ),
        (exists|i: int, j: int|
            0 <= i < rows.len() && 0 <= j < rows[i].loss@.len() && (
            #[trigger] rows[i].loss@[j]) is Some) ==> crate::text::occurs(
            sweep_report_text(info, ks, rows, mode, clients, true),
            loss_table(ks, rows),
        ),
{
    reveal_strlit("");
    let front = sweep_title(info, ks, mode, clients) + sweep_lines(rows);
    let details = sweep_details(ks, rows);
    let text = sweep_report_text(info, ks, rows, mode, clients, true);
    assert(text =~= front + (details + "\n"@));
    crate::text::lemma_pieces(front, details + "\n"@);
    assert(front + ""@ + "\n"@ =~= front + "\n"@);
    if !any_bands(rows) && !any_loss(rows) {
        assert(details =~= ""@);
    }
    let bands = "\nRecall by per-query latency band (do slower queries recall worse?):\n"@
        + sweep_bands(ks, rows);
    let losses = if any_loss(rows) {
        loss_table(ks, rows)
    } else {
        ""@
    };
    if any_bands(rows) {
        assert(text =~= front + bands + (losses + "\n"@));
        crate::text::lemma_middle(front, bands, losses + "\n"@);
    }
    if any_loss(rows) {
        let before = if any_bands(rows) {
            bands
        } else {
            ""@
        };
        assert(text =~= (front + before) + loss_table(ks, rows) + "\n"@);
        crate::text::lemma_middle(front + before, loss_table(ks, rows), "\n"@);
    }
}

/// The latency breakdown of a report for a target recall, and those of a vector-graph index, are
/// shown with verbosity, where there are any, and not otherwise.
pub proof fn law_breakdowns_are_for_the_verbose(
    info: IndexInfo,
    ks: Seq<usize>,
    shown: Seq<char>,
    queries: usize,
    rows: Seq<TargetRow>,
    timing: TimingCells,
    bands: Seq<BandCells>,
    graph: GraphInfo,
    graph_rows: Seq<GraphRow>,
    mode: BenchMode,
    clients: usize,
)
    ensures
        target_report_text(info, ks, shown, queries, rows, timing, bands, false) == target_title(
            info,
            shown,
            queries,
        ) + target_lines(rows, queries) + latency_line(timing) + "\n"@,
        target_report_text(info, ks, shown, queries, rows, timing, Seq::empty(), true)
            == target_report_text(info, ks, shown, queries, rows, timing, bands, false),
        bands.len() > 0 ==> target_report_text(
            info,
            ks,
            shown,
            queries,
            rows,
            timing,
            bands,
            true,
        ) == target_title(info, shown, queries) + target_lines(rows, queries) + latency_line(timing)
            + ("\nRecall by per-query latency band (do slower queries recall worse?):\n"@
            + band_table(ks, bands)) + "\n"@,
        graph_report_text(graph, shown, graph_rows, mode, clients, false) == graph_title(
            graph,
            shown,
            mode,
            clients,
        ) + graph_lines(graph_rows) + "\n"@,
        (exists|i: int| 0 <= i < graph_rows.len() && (#[trigger] graph_rows[i]).bands@.len() > 0)
            ==> graph_report_text(graph, shown, graph_rows, mode, clients, true) == graph_title(
            graph,
            shown,
            mode,
            clients,
        ) + graph_lines(graph_rows) + (
        "\nRecall by per-query latency band (do slower queries recall worse?):\n"@ + graph_bands(
            graph_rows,
        )) + "\n"@,
        (forall|i: int| 0 <= i < graph_rows.len() ==> (#[trigger] graph_rows[i]).bands@.len() == 0)
            ==> graph_report_text(graph, shown, graph_rows, mode, clients, true)
            == graph_report_text(graph, shown, graph_rows, mode, clients, false),
{
    reveal_strlit("");
    let head = target_title(info, shown, queries) + target_lines(rows, queries) + latency_line(
        timing,
    );
    assert(head + ""@ =~= head);
    let top = graph_title(graph, shown, mode, clients) + graph_lines(graph_rows);
    assert(top + ""@ =~= top);
}

/// Each table of a breakdown is that of its own row, under the value that was measured.
pub proof fn law_breakdowns_are_told_apart(
    ks: Seq<usize>,
    rows: Seq<SweepRow>,
    row: SweepRow,
    graph_rows: Seq<GraphRow>,
    graph_row: GraphRow,
)
    ensures
        sweep_bands(ks, rows.push(row)) == sweep_bands(ks, rows) + (if row.bands@.len() == 0 {
            Seq::empty()
        } else {
            "nProbe="@ + crate::text::dec(row.nprobe as nat) + ":\n"@ + band_table(ks, row.bands@)
        }),
        graph_bands(graph_rows.push(graph_row)) == graph_bands(graph_rows) + (
        if graph_row.bands@.len() == 0 {
            Seq::empty()
        } else {
            "topK="@ + crate::text::dec(graph_row.k as nat) + ":\n"@ + band_table(
                seq![graph_row.k],
                graph_row.bands@,
            )
        }),
{
    assert(rows.push(row).drop_last() =~= rows);
    assert(graph_rows.push(graph_row).drop_last() =~= graph_rows);
    assert(sweep_bands(ks, rows) + Seq::<char>::empty() =~= sweep_bands(ks, rows));
    assert(graph_bands(graph_rows) + Seq::<char>::empty() =~= graph_bands(graph_rows));
}

/// The gap of a vector-graph index is called a loss where the score is a similarity and a gap of
/// distances where it is a distance; one that is not known is told as such.
pub proof fn law_gap_is_named_for_the_metric(
    graph: GraphInfo,
    alpha: Seq<char>,
    mode: BenchMode,
    clients: usize,
)
    ensures
        crate::text::occurs(
            graph_title(graph, alpha, mode, clients),
            if crate::metric::higher_is_nearer(graph.metric) {
                "  topK | recall@K | sim_loss | mean_ms |"@
            } else {
                "  topK | recall@K | dist_gap | mean_ms |"@
            },
        ),
        gap_text(None) == "n/a"@,
        crate::text::occurs(
            graph_title(graph, alpha, mode, clients),
            (match graph.metric {
                Metric::Cosine => "(metric=cosine"@,
                Metric::L2 => "(metric=l2"@,
            }),
        ),
{
    lemma_gap_heading(graph, alpha, mode, clients);
    lemma_metric_in_title(graph, alpha, mode, clients);
}

#[verifier::rlimit(40)]
proof fn lemma_gap_heading(graph: GraphInfo, alpha: Seq<char>, mode: BenchMode, clients: usize)
    ensures
        crate::text::occurs(
            graph_title(graph, alpha, mode, clients),
            if crate::metric::higher_is_nearer(graph.metric) {
                "  topK | recall@K | sim_loss | mean_ms |"@
            } else {
                "  topK | recall@K | dist_gap | mean_ms |"@
            },
        ),
{
    reveal_strlit("sim_loss");
    reveal_strlit("dist_gap");
    reveal_strlit("\n\n  topK | recall@K | ");
    reveal_strlit("\n\n");
    reveal_strlit("  topK | recall@K | ");
    reveal_strlit("  topK | recall@K | sim_loss | mean_ms |");
    reveal_strlit("  topK | recall@K | dist_gap | mean_ms |");
    reveal_strlit(" | mean_ms |    p50 |    p90 |    p95 |    p99 |      QPS\n");
    reveal_strlit(" | mean_ms |");
    reveal_strlit("    p50 |    p90 |    p95 |    p99 |      QPS\n");
    let heading = if crate::metric::higher_is_nearer(graph.metric) {
        "  topK | recall@K | sim_loss | mean_ms |"@
    } else {
        "  topK | recall@K | dist_gap | mean_ms |"@
    };
    let label = gap_label(graph.metric);
    assert(crate::text::pad_left(label, 8) =~= label);
    assert(heading =~= "  topK | recall@K | "@ + label + " | mean_ms |"@);
    assert("\n\n  topK | recall@K | "@ =~= "\n\n"@ + "  topK | recall@K | "@);
    assert(" | mean_ms |    p50 |    p90 |    p95 |    p99 |      QPS\n"@ =~= " | mean_ms |"@
        + "    p50 |    p90 |    p95 |    p99 |      QPS\n"@);
    let front = "\nVector-graph recall report — "@ + crate::text::dec(graph.count as nat)
        + " vectors, dim="@ + crate::text::dec(graph.dimension as nat) + ", index '"@ + graph.name@
        + "' (metric="@ + crate::metric::metric_label(graph.metric) + ", maxDegree="@
        + crate::text::dec(graph.max_degree as nat) + ", alpha="@ + alpha + "), "@ + mode_text(
        mode,
        clients,
    ) + "\n\n"@;
    let back = "    p50 |    p90 |    p95 |    p99 |      QPS\n"@ + crate::text::repeated('-', 92)
        + "\n"@;
    assert(graph_title(graph, alpha, mode, clients) =~= front + heading + back);
    crate::text::lemma_middle(front, heading, back);
}

#[verifier::rlimit(40)]
proof fn lemma_metric_in_title(
    graph: GraphInfo,
    alpha: Seq<char>,
    mode: BenchMode,
    clients: usize,
)
    ensures
        crate::text::occurs(
            graph_title(graph, alpha, mode, clients),
            (match graph.metric {
                Metric::Cosine => "(metric=cosine"@,
                Metric::L2 => "(metric=l2"@,
            }),
        ),
{
    reveal_strlit("cosine");
    reveal_strlit("l2");
    reveal_strlit("' (metric=");
    reveal_strlit("' ");
    reveal_strlit("(metric=cosine");
    reveal_strlit("(metric=l2");
    let told = match graph.metric {
        Metric::Cosine => "(metric=cosine"@,
        Metric::L2 => "(metric=l2"@,
    };
    assert("' (metric="@ + crate::metric::metric_label(graph.metric) =~= "' "@ + told);
    let front = "\nVector-graph recall report — "@ + crate::text::dec(graph.count as nat)
        + " vectors, dim="@ + crate::text::dec(graph.dimension as nat) + ", index '"@ + graph.name@
        + "' "@;
    let back = ", maxDegree="@ + crate::text::dec(graph.max_degree as nat) + ", alpha="@ + alpha
        + "), "@ + mode_text(mode, clients) + "\n\n  topK | recall@K | "@
        + crate::text::pad_left(gap_label(graph.metric), 8)
        + " | mean_ms |    p50 |    p90 |    p95 |    p99 |      QPS\n"@
        + crate::text::repeated('-', 92) + "\n"@;
    assert(graph_title(graph, alpha, mode, clients) =~= front + told + back);
    crate::text::lemma_middle(front, told, back);
}

} // verus!
