//! The queries of a benchmark, and the rows they return.

use crate::json::{write_json, Json, JsonView};
use crate::metric::Metric;
use crate::text::{push_dec, same_text};
use vstd::prelude::*;
use vstd::string::*;

verus! {

// ---------------------------------------------------------------------------
// Queries
// ---------------------------------------------------------------------------

/// The start of every query that is answered by the index `index_name`.
pub open spec fn indexed_head(coll: Seq<char>, index_name: Seq<char>) -> Seq<char> {
    "FOR d IN "@ + coll + " OPTIONS {indexHint: \""@ + index_name + "\", forceIndexHint: true}"@
}

/// The exact top-k query.
pub open spec fn exact_text(coll: Seq<char>, metric: Metric, k: nat) -> Seq<char> {
    "FOR d IN "@ + coll + " LET s = "@ + crate::metric::exact_function(metric)
        + "(d.vector, @qp) SORT s "@ + crate::metric::direction(metric) + " LIMIT "@
        + crate::text::dec(k) + " RETURN {k: d.idx, s: s}"@
}

/// The approximate query of an IVF index, with `option` in its options object.
pub open spec fn ivf_text(
    coll: Seq<char>,
    index_name: Seq<char>,
    option: Seq<char>,
    k: nat,
) -> Seq<char> {
    indexed_head(coll, index_name) + " LET sim = APPROX_NEAR_COSINE(d.vector, @qp, {"@ + option
        + "}) SORT sim DESC LIMIT "@ + crate::text::dec(k) + " RETURN {k: d.idx, s: sim}"@
}

/// The option that fixes the number of probes.
pub open spec fn nprobe_option(nprobe: u64) -> Seq<char> {
    "nProbe: "@ + crate::text::dec(nprobe as nat)
}

/// The option that asks for a recall, for which the server picks the number of probes.
pub open spec fn target_option(target: Seq<char>) -> Seq<char> {
    "targetRecall: "@ + target
}

/// The options object of a vector-graph query, as a third argument; nothing where no option is
/// set.
pub open spec fn graph_options(search_list_size: Option<usize>, rerank: bool) -> Seq<char> {
    match search_list_size {
        Some(n) => if rerank {
            ", {searchListSize: "@ + crate::text::dec(n as nat) + ", rerank: true}"@
        } else {
            ", {searchListSize: "@ + crate::text::dec(n as nat) + "}"@
        },
        None => if rerank {
            ", {rerank: true}"@
        } else {
            ""@
        },
    }
}

/// The approximate query of a vector-graph index.
pub open spec fn graph_text(
    coll: Seq<char>,
    index_name: Seq<char>,
    metric: Metric,
    k: nat,
    options: Seq<char>,
) -> Seq<char> {
    indexed_head(coll, index_name) + " LET s = "@ + crate::metric::approx_function(metric)
        + "(d.vector, @qp"@ + options + ") SORT s "@ + crate::metric::direction(metric)
        + " LIMIT "@ + crate::text::dec(k) + " RETURN {k: d.idx, s: s}"@
}

/// The query that samples query vectors.
pub open spec fn sample_text(coll: Seq<char>, n: nat) -> Seq<char> {
    "FOR d IN "@ + coll + " SORT d.idx LIMIT "@ + crate::text::dec(n) + " RETURN d.vector"@
}

/// The start of every query that is answered by the index `index_name`.
fn query_head(coll: &str, index_name: &str) -> (res: String)
    ensures
        res@ == indexed_head(coll@, index_name@),
{
    let mut out = "FOR d IN ".to_owned();
    out.append(coll);
    out.append(" OPTIONS {indexHint: \"");
    out.append(index_name);
    out.append("\", forceIndexHint: true}");
    out
}

/// Exact top-k ground-truth query, metric-aware (COSINE_SIMILARITY…DESC for
/// cosine, L2_DISTANCE…ASC for l2).
pub fn exact_query(coll: &str, metric: Metric, k: usize) -> (res: String)
    ensures
        res@ == exact_text(coll@, metric, k as nat),
{
    let mut out = "FOR d IN ".to_owned();
    out.append(coll);
    out.append(" LET s = ");
    out.append(metric.exact_fn());
    out.append("(d.vector, @qp) SORT s ");
    out.append(metric.sort_dir());
    out.append(" LIMIT ");
    push_dec(&mut out, k as u64);
    out.append(" RETURN {k: d.idx, s: s}");
    out
}

/// The approximate query of an IVF index, with `option` in its options object.
fn ivf_query(coll: &str, index_name: &str, option: &str, k: usize) -> (res: String)
    ensures
        res@ == ivf_text(coll@, index_name@, option@, k as nat),
{
    let mut out = query_head(coll, index_name);
    out.append(" LET sim = APPROX_NEAR_COSINE(d.vector, @qp, {");
    out.append(option);
    out.append("}) SORT sim DESC LIMIT ");
    push_dec(&mut out, k as u64);
    out.append(" RETURN {k: d.idx, s: sim}");
    out
}

/// IVF approximate query. nProbe and LIMIT are inlined so the optimizer
/// recognizes the APPROX_NEAR_COSINE + SORT + LIMIT pattern reliably.
pub fn ivf_approx_query(coll: &str, index_name: &str, k: usize, nprobe: u64) -> (res: String)
    ensures
        res@ == ivf_text(coll@, index_name@, nprobe_option(nprobe), k as nat),
{
    let mut option = "nProbe: ".to_owned();
    push_dec(&mut option, nprobe);
    ivf_query(coll, index_name, option.as_str(), k)
}

/// IVF approximate query in targetRecall mode. targetRecall is mutually
/// exclusive with nProbe: the server picks the probe count from the persisted
/// autotune table that meets this recall. `target` is the number in decimal.
pub fn ivf_target_query(coll: &str, index_name: &str, k: usize, target: &str) -> (res: String)
    ensures
        res@ == ivf_text(coll@, index_name@, target_option(target@), k as nat),
{
    let mut option = "targetRecall: ".to_owned();
    option.append(target);
    ivf_query(coll, index_name, option.as_str(), k)
}

/// Vector-graph approximate query without options. Metric-aware:
/// APPROX_NEAR_COSINE…DESC for cosine, APPROX_NEAR_L2…ASC for l2.
pub fn graph_approx_query(coll: &str, index_name: &str, metric: Metric, k: usize) -> (res: String)
    ensures
        res@ == graph_text(coll@, index_name@, metric, k as nat, ""@),
{
    graph_tuned_query(coll, index_name, metric, k, None, false)
}

/// Vector-graph approximate query with the search-list size and the reranking that were asked
/// for; the same as without options where neither was.
pub fn graph_tuned_query(
    coll: &str,
    index_name: &str,
    metric: Metric,
    k: usize,
    search_list_size: Option<usize>,
    rerank: bool,
) -> (res: String)
    ensures
        res@ == graph_text(
            coll@,
            index_name@,
            metric,
            k as nat,
            graph_options(search_list_size, rerank),
        ),
{
    let options = match search_list_size {
        Some(n) => {
            let mut options = ", {searchListSize: ".to_owned();
            push_dec(&mut options, n as u64);
            options.append(
                if rerank {
                    ", rerank: true}"
                } else {
                    "}"
                },
            );
            options
        },
        None => if rerank {
            ", {rerank: true}".to_owned()
        } else {
            "".to_owned()
        },
    };
    let mut out = query_head(coll, index_name);
    out.append(" LET s = ");
    out.append(metric.approx_fn());
    out.append("(d.vector, @qp");
    out.append(options.as_str());
    out.append(") SORT s ");
    out.append(metric.sort_dir());
    out.append(" LIMIT ");
    push_dec(&mut out, k as u64);
    out.append(" RETURN {k: d.idx, s: s}");
    out
}

/// The query that takes the vectors of the first `n` documents as query vectors.
pub fn sample_query(coll: &str, n: usize) -> (res: String)
    ensures
        res@ == sample_text(coll@, n as nat),
{
    let mut out = "FOR d IN ".to_owned();
    out.append(coll);
    out.append(" SORT d.idx LIMIT ");
    push_dec(&mut out, n as u64);
    out.append(" RETURN d.vector");
    out
}

/// The exact query asks for documents of the collection, scored against the query point by the
/// exact function of the metric, and sorts so that the nearest comes first: a similarity
/// descends, a distance ascends. The queries of the two metrics are one but for these.
#[verifier::rlimit(40)]
pub proof fn law_exact_query_takes_the_nearest(coll: Seq<char>, metric: Metric, k: nat)
    ensures
        crate::text::begins_with(exact_text(coll, metric, k), "FOR d IN "@ + coll + " "@),
        crate::text::ends_in(
            exact_text(coll, metric, k),
            (match metric {
                Metric::Cosine => " LET s = COSINE_SIMILARITY(d.vector, @qp) SORT s DESC"@,
                Metric::L2 => " LET s = L2_DISTANCE(d.vector, @qp) SORT s ASC"@,
            }) + (" LIMIT "@ + crate::text::dec(k) + " RETURN {k: d.idx, s: s}"@),
        ),
{
    reveal_strlit("COSINE_SIMILARITY");
    reveal_strlit("L2_DISTANCE");
    reveal_strlit("DESC");
    reveal_strlit("ASC");
    reveal_strlit(" LET s = ");
    reveal_strlit(" ");
    reveal_strlit("(d.vector, @qp) SORT s ");
    reveal_strlit(" LET s = COSINE_SIMILARITY(d.vector, @qp) SORT s DESC");
    reveal_strlit(" LET s = L2_DISTANCE(d.vector, @qp) SORT s ASC");
    let head = "FOR d IN "@ + coll;
    let score = match metric {
        Metric::Cosine => " LET s = COSINE_SIMILARITY(d.vector, @qp) SORT s DESC"@,
        Metric::L2 => " LET s = L2_DISTANCE(d.vector, @qp) SORT s ASC"@,
    };
    let limit = " LIMIT "@ + crate::text::dec(k) + " RETURN {k: d.idx, s: s}"@;
    assert(" LET s = "@ + crate::metric::exact_function(metric) + "(d.vector, @qp) SORT s "@
        + crate::metric::direction(metric) =~= score);
    assert(exact_text(coll, metric, k) =~= head + (score + limit));
    crate::text::lemma_pieces(head, score + limit);
    let rest = (score + limit).skip(1);
    assert(score[0] == ' ');
    assert(exact_text(coll, metric, k) =~= ("FOR d IN "@ + coll + " "@) + rest);
    crate::text::lemma_pieces("FOR d IN "@ + coll + " "@, rest);
}

/// The vector-graph query calls the approximate-search function of the index's own metric and
/// sorts so that the nearest comes first; the options stand behind the query point, and the
/// index is the one that is named.
pub proof fn law_graph_query_is_of_its_metric(
    coll: Seq<char>,
    index_name: Seq<char>,
    metric: Metric,
    k: nat,
    options: Seq<char>,
)
    ensures
        crate::text::begins_with(
            graph_text(coll, index_name, metric, k, options),
            "FOR d IN "@ + coll + " OPTIONS {indexHint: \""@ + index_name
                + "\", forceIndexHint: true} "@,
        ),
        crate::text::ends_in(
            graph_text(coll, index_name, metric, k, options),
            (match metric {
                Metric::Cosine => " LET s = APPROX_NEAR_COSINE(d.vector, @qp"@,
                Metric::L2 => " LET s = APPROX_NEAR_L2(d.vector, @qp"@,
            }) + options + (match metric {
                Metric::Cosine => ") SORT s DESC LIMIT "@,
                Metric::L2 => ") SORT s ASC LIMIT "@,
            }) + crate::text::dec(k) + " RETURN {k: d.idx, s: s}"@,
        ),
        crate::text::same_but(
            graph_text(coll, index_name, Metric::Cosine, k, options),
            "APPROX_NEAR_COSINE(d.vector, @qp"@ + options + ") SORT s DESC"@,
            graph_text(coll, index_name, Metric::L2, k, options),
            "APPROX_NEAR_L2(d.vector, @qp"@ + options + ") SORT s ASC"@,
            " LET s = "@,
            " LIMIT "@,
        ),
        graph_text(coll, index_name, Metric::Cosine, k, options) != graph_text(
            coll,
            index_name,
            Metric::L2,
            k,
            options,
        ),
{
    lemma_graph_text_ends(coll, index_name, metric, k, options);
    lemma_graph_texts_differ(coll, index_name, k, options);
}

#[verifier::rlimit(40)]
proof fn lemma_graph_text_ends(
    coll: Seq<char>,
    index_name: Seq<char>,
    metric: Metric,
    k: nat,
    options: Seq<char>,
)
    ensures
        crate::text::begins_with(
            graph_text(coll, index_name, metric, k, options),
            "FOR d IN "@ + coll + " OPTIONS {indexHint: \""@ + index_name
                + "\", forceIndexHint: true} "@,
        ),
        crate::text::ends_in(
            graph_text(coll, index_name, metric, k, options),
            (match metric {
                Metric::Cosine => " LET s = APPROX_NEAR_COSINE(d.vector, @qp"@,
                Metric::L2 => " LET s = APPROX_NEAR_L2(d.vector, @qp"@,
            }) + options + (match metric {
                Metric::Cosine => ") SORT s DESC LIMIT "@,
                Metric::L2 => ") SORT s ASC LIMIT "@,
            }) + crate::text::dec(k) + " RETURN {k: d.idx, s: s}"@,
        ),
{
    reveal_strlit("APPROX_NEAR_COSINE");
    reveal_strlit("APPROX_NEAR_L2");
    reveal_strlit("DESC");
    reveal_strlit("ASC");
    reveal_strlit(" LET s = ");
    reveal_strlit("(d.vector, @qp");
    reveal_strlit(") SORT s ");
    reveal_strlit(" LIMIT ");
    reveal_strlit(" LET s = APPROX_NEAR_COSINE(d.vector, @qp");
    reveal_strlit(" LET s = APPROX_NEAR_L2(d.vector, @qp");
    reveal_strlit(") SORT s DESC LIMIT ");
    reveal_strlit(") SORT s ASC LIMIT ");
    reveal_strlit("\", forceIndexHint: true}");
    reveal_strlit("\", forceIndexHint: true} ");
    let head = indexed_head(coll, index_name);
    let start = "FOR d IN "@ + coll + " OPTIONS {indexHint: \""@ + index_name
        + "\", forceIndexHint: true} "@;
    let text = graph_text(coll, index_name, metric, k, options);
    let first = match metric {
        Metric::Cosine => " LET s = APPROX_NEAR_COSINE(d.vector, @qp"@,
        Metric::L2 => " LET s = APPROX_NEAR_L2(d.vector, @qp"@,
    };
    let last = match metric {
        Metric::Cosine => ") SORT s DESC LIMIT "@,
        Metric::L2 => ") SORT s ASC LIMIT "@,
    };
    let end = first + options + last + crate::text::dec(k) + " RETURN {k: d.idx, s: s}"@;
    assert(" LET s = "@ + crate::metric::approx_function(metric) + "(d.vector, @qp"@ =~= first);
    assert(") SORT s "@ + crate::metric::direction(metric) + " LIMIT "@ =~= last);
    assert(text =~= head + end);
    crate::text::lemma_pieces(head, end);
    assert(start =~= head.push(' '));
    assert(end[0] == ' ');
    assert(text =~= start + end.skip(1));
    crate::text::lemma_pieces(start, end.skip(1));
}

#[verifier::rlimit(40)]
proof fn lemma_graph_texts_differ(
    coll: Seq<char>,
    index_name: Seq<char>,
    k: nat,
    options: Seq<char>,
)
    ensures
        crate::text::same_but(
            graph_text(coll, index_name, Metric::Cosine, k, options),
            "APPROX_NEAR_COSINE(d.vector, @qp"@ + options + ") SORT s DESC"@,
            graph_text(coll, index_name, Metric::L2, k, options),
            "APPROX_NEAR_L2(d.vector, @qp"@ + options + ") SORT s ASC"@,
            " LET s = "@,
            " LIMIT "@,
        ),
        graph_text(coll, index_name, Metric::Cosine, k, options) != graph_text(
            coll,
            index_name,
            Metric::L2,
            k,
            options,
        ),
{
    reveal_strlit("APPROX_NEAR_COSINE");
    reveal_strlit("APPROX_NEAR_L2");
    reveal_strlit("DESC");
    reveal_strlit("ASC");
    reveal_strlit("(d.vector, @qp");
    reveal_strlit(") SORT s ");
    reveal_strlit("APPROX_NEAR_COSINE(d.vector, @qp");
    reveal_strlit("APPROX_NEAR_L2(d.vector, @qp");
    reveal_strlit(") SORT s DESC");
    reveal_strlit(") SORT s ASC");
    assert("APPROX_NEAR_COSINE(d.vector, @qp"@ =~= "APPROX_NEAR_COSINE"@ + "(d.vector, @qp"@);
    assert("APPROX_NEAR_L2(d.vector, @qp"@ =~= "APPROX_NEAR_L2"@ + "(d.vector, @qp"@);
    assert(") SORT s DESC"@ =~= ") SORT s "@ + "DESC"@);
    assert(") SORT s ASC"@ =~= ") SORT s "@ + "ASC"@);
    let head = indexed_head(coll, index_name);
    let x = "APPROX_NEAR_COSINE(d.vector, @qp"@ + options + ") SORT s DESC"@;
    let y = "APPROX_NEAR_L2(d.vector, @qp"@ + options + ") SORT s ASC"@;
    let frame = head + " LET s = "@;
    let limit = crate::text::dec(k) + " RETURN {k: d.idx, s: s}"@;
    let tail = " LIMIT "@ + limit;
    assert(graph_text(coll, index_name, Metric::Cosine, k, options) =~= frame + x + tail);
    assert(graph_text(coll, index_name, Metric::L2, k, options) =~= frame + y + tail);
    crate::text::lemma_pieces(head, " LET s = "@);
    crate::text::lemma_pieces(" LIMIT "@, limit);
    crate::text::lemma_same_but(frame, x, y, tail, " LET s = "@, " LIMIT "@);
    assert(x[12] == 'C' && y[12] == 'L');
}

/// The exact and the approximate query of a metric sort the same way, take as many rows and
/// return the same: they end alike from the sorting on.
#[verifier::rlimit(40)]
pub proof fn law_exact_and_approximate_end_alike(
    coll: Seq<char>,
    index_name: Seq<char>,
    metric: Metric,
    k: nat,
    options: Seq<char>,
)
    ensures
        ({
            let end = (match metric {
                Metric::Cosine => ") SORT s DESC LIMIT "@,
                Metric::L2 => ") SORT s ASC LIMIT "@,
            }) + crate::text::dec(k) + " RETURN {k: d.idx, s: s}"@;
            &&& crate::text::ends_in(exact_text(coll, metric, k), end)
            &&& crate::text::ends_in(graph_text(coll, index_name, metric, k, options), end)
        }),
{
    reveal_strlit("DESC");
    reveal_strlit("ASC");
    reveal_strlit(") SORT s ");
    reveal_strlit(" LIMIT ");
    reveal_strlit("(d.vector, @qp");
    reveal_strlit("(d.vector, @qp) SORT s ");
    reveal_strlit(") SORT s DESC LIMIT ");
    reveal_strlit(") SORT s ASC LIMIT ");
    let last = match metric {
        Metric::Cosine => ") SORT s DESC LIMIT "@,
        Metric::L2 => ") SORT s ASC LIMIT "@,
    };
    let end = last + crate::text::dec(k) + " RETURN {k: d.idx, s: s}"@;
    assert(") SORT s "@ + crate::metric::direction(metric) + " LIMIT "@ =~= last);
    let a = "FOR d IN "@ + coll + " LET s = "@ + crate::metric::exact_function(metric)
        + "(d.vector, @qp"@;
    let b = indexed_head(coll, index_name) + " LET s = "@ + crate::metric::approx_function(metric)
        + "(d.vector, @qp"@ + options;
    assert("(d.vector, @qp) SORT s "@ =~= "(d.vector, @qp"@ + ") SORT s "@);
    assert(exact_text(coll, metric, k) =~= a + end);
    assert(graph_text(coll, index_name, metric, k, options) =~= b + end);
    crate::text::lemma_pieces(a, end);
    crate::text::lemma_pieces(b, end);
}

/// An IVF query searches by cosine with its option alone, through the index that is named, and
/// takes the first `k`, the most similar first. Two queries with different options are one but
/// for the option, and two with different limits are one but for the limit.
#[verifier::rlimit(40)]
pub proof fn law_ivf_query_holds_its_option(
    coll: Seq<char>,
    index_name: Seq<char>,
    option: Seq<char>,
    other: Seq<char>,
    k: nat,
)
    ensures
        crate::text::begins_with(
            ivf_text(coll, index_name, option, k),
            "FOR d IN "@ + coll + " OPTIONS {indexHint: \""@ + index_name
                + "\", forceIndexHint: true} "@,
        ),
        crate::text::ends_in(
            ivf_text(coll, index_name, option, k),
            " LET sim = APPROX_NEAR_COSINE(d.vector, @qp, {"@ + option + "}) SORT sim DESC LIMIT "@
                + crate::text::dec(k) + " RETURN {k: d.idx, s: sim}"@,
        ),
        crate::text::same_but(
            ivf_text(coll, index_name, option, k),
            option,
            ivf_text(coll, index_name, other, k),
            other,
            "APPROX_NEAR_COSINE(d.vector, @qp, {"@,
            "}) SORT sim DESC LIMIT "@,
        ),
        option != other ==> ivf_text(coll, index_name, option, k) != ivf_text(
            coll,
            index_name,
            other,
            k,
        ),
{
    reveal_strlit(" LET sim = APPROX_NEAR_COSINE(d.vector, @qp, {");
    reveal_strlit(" LET sim = ");
    reveal_strlit("APPROX_NEAR_COSINE(d.vector, @qp, {");
    reveal_strlit("\", forceIndexHint: true}");
    reveal_strlit("\", forceIndexHint: true} ");
    let head = indexed_head(coll, index_name);
    let start = "FOR d IN "@ + coll + " OPTIONS {indexHint: \""@ + index_name
        + "\", forceIndexHint: true} "@;
    let tail = "}) SORT sim DESC LIMIT "@ + (crate::text::dec(k) + " RETURN {k: d.idx, s: sim}"@);
    let end = " LET sim = APPROX_NEAR_COSINE(d.vector, @qp, {"@ + option
        + "}) SORT sim DESC LIMIT "@ + crate::text::dec(k) + " RETURN {k: d.idx, s: sim}"@;
    let text = ivf_text(coll, index_name, option, k);
    assert(text =~= head + end);
    crate::text::lemma_pieces(head, end);
    assert(start =~= head.push(' '));
    assert(end[0] == ' ');
    assert(text =~= start + end.skip(1));
    crate::text::lemma_pieces(start, end.skip(1));
    let frame = head + " LET sim = "@ + "APPROX_NEAR_COSINE(d.vector, @qp, {"@;
    assert(" LET sim = APPROX_NEAR_COSINE(d.vector, @qp, {"@ =~= " LET sim = "@
        + "APPROX_NEAR_COSINE(d.vector, @qp, {"@);
    assert(text =~= frame + option + tail);
    assert(ivf_text(coll, index_name, other, k) =~= frame + other + tail);
    crate::text::lemma_pieces(head + " LET sim = "@, "APPROX_NEAR_COSINE(d.vector, @qp, {"@);
    crate::text::lemma_pieces(
        "}) SORT sim DESC LIMIT "@,
        crate::text::dec(k) + " RETURN {k: d.idx, s: sim}"@,
    );
    crate::text::lemma_same_but(
        frame,
        option,
        other,
        tail,
        "APPROX_NEAR_COSINE(d.vector, @qp, {"@,
        "}) SORT sim DESC LIMIT "@,
    );
}

/// The options of an IVF query name the number of probes, in decimal, or the target recall.
pub proof fn law_ivf_options(nprobe: u64, target: Seq<char>)
    ensures
        nprobe_option(nprobe) == "nProbe: "@ + crate::text::dec(nprobe as nat),
        crate::decimal::read_u64(nprobe_option(nprobe).skip("nProbe: "@.len() as int)) == Some(
            nprobe,
        ),
        target_option(target) == "targetRecall: "@ + target,
{
    crate::decimal::law_numerals_read_back(nprobe, nprobe);
    assert(nprobe_option(nprobe).skip("nProbe: "@.len() as int) =~= crate::text::dec(
        nprobe as nat,
    ));
}

/// The options of a vector-graph query hold the search-list size where one is given and ask for
/// reranking where it is wanted, and nothing else: different choices give different options.
pub proof fn law_graph_options(size: Option<usize>, rerank: bool)
    ensures
        size is None && !rerank ==> graph_options(size, rerank) == ""@,
        rerank <==> crate::text::ends_in(graph_options(size, rerank), "rerank: true}"@),
        size matches Some(n) ==> crate::text::begins_with(
            graph_options(size, rerank),
            ", {searchListSize: "@ + crate::text::dec(n as nat),
        ),
        size is None ==> !crate::text::begins_with(
            graph_options(size, rerank),
            ", {searchListSize: "@,
        ),
{
    reveal_strlit("");
    reveal_strlit("}");
    reveal_strlit(", {searchListSize: ");
    reveal_strlit(", rerank: true}");
    reveal_strlit(", ");
    reveal_strlit(", {");
    reveal_strlit("rerank: true}");
    reveal_strlit(", {rerank: true}");
    let text = graph_options(size, rerank);
    match size {
        Some(n) => {
            crate::decimal::law_numerals_read_back(n as u64, n as u64);
            let head = ", {searchListSize: "@ + crate::text::dec(n as nat);
            if rerank {
                crate::text::lemma_pieces(head, ", rerank: true}"@);
                assert(", rerank: true}"@ =~= ", "@ + "rerank: true}"@);
                assert(text =~= (head + ", "@) + "rerank: true}"@);
                crate::text::lemma_pieces(head + ", "@, "rerank: true}"@);
            } else {
                crate::text::lemma_pieces(head, "}"@);
                let digits = crate::text::dec(n as nat);
                assert(text[text.len() - 2] == digits[digits.len() - 1]);
                assert(crate::decimal::is_digit(digits[digits.len() - 1]));
                if crate::text::ends_in(text, "rerank: true}"@) {
                    let end = text.subrange(text.len() - 13, text.len() as int);
                    assert(end == "rerank: true}"@);
                    assert(end[11] == 'e');
                    assert(text[text.len() - 2] == end[11]);
                }
            }
        },
        None => {
            if rerank {
                assert(text =~= ", {"@ + "rerank: true}"@);
                crate::text::lemma_pieces(", {"@, "rerank: true}"@);
                if crate::text::begins_with(text, ", {searchListSize: "@) {
                    let start = text.subrange(0, 19);
                    assert(start == ", {searchListSize: "@);
                    assert(start[3] == 's');
                    assert(text[3] == start[3]);
                }
            }
        },
    }
}

/// The sampling query takes the vectors of the first `n` documents by their number.
pub proof fn law_sample_query_takes_the_first(coll: Seq<char>, n: nat)
    ensures
        crate::text::begins_with(sample_text(coll, n), "FOR d IN "@ + coll + " SORT d.idx LIMIT "@),
        crate::text::ends_in(
            sample_text(coll, n),
            " SORT d.idx LIMIT "@ + crate::text::dec(n) + " RETURN d.vector"@,
        ),
{
    let head = "FOR d IN "@ + coll;
    let end = " SORT d.idx LIMIT "@ + crate::text::dec(n) + " RETURN d.vector"@;
    assert(sample_text(coll, n) =~= head + end);
    crate::text::lemma_pieces(head, end);
    let start = "FOR d IN "@ + coll + " SORT d.idx LIMIT "@;
    assert(sample_text(coll, n) =~= start + (crate::text::dec(n) + " RETURN d.vector"@));
    crate::text::lemma_pieces(start, crate::text::dec(n) + " RETURN d.vector"@);
}

/// The two kinds of index that can be benchmarked.
pub open spec fn is_benchable(index_type: Option<Seq<char>>) -> bool {
    index_type == Some("vector"@) || index_type == Some("vector-graph"@)
}

/// True for any index type this tool can benchmark.
pub fn is_vector_index(index_type: Option<&str>) -> (res: bool)
    ensures
        res == is_benchable(crate::json::opt_str(index_type)),
{
    match index_type {
        Some(t) => same_text(t, "vector") || same_text(t, "vector-graph"),
        None => false,
    }
}

// ---------------------------------------------------------------------------
// Vectors
// ---------------------------------------------------------------------------

/// A vector as JSON: an array of the numbers, each given in decimal.
pub open spec fn vector_json(vector: Seq<Seq<char>>) -> JsonView {
    JsonView::Array(vector.map_values(|t: Seq<char>| JsonView::Float(t)))
}

/// A vector as JSON.
pub fn vector_value(vector: &Vec<String>) -> (res: Json)
    ensures
        res@ == vector_json(crate::text::texts(vector@)),
{
    let mut items: Vec<Json> = Vec::new();
    for i in 0..vector.len()
        invariant
            items@.len() == i,
            forall|k: int| 0 <= k < i ==> (#[trigger] items@[k])@ == JsonView::Float(vector@[k]@),
    {
        items.push(Json::Float(vector[i].clone()));
    }
    let res = Json::Array(items);
    proof {
        crate::json::lemma_view_parts(res);
        assert(crate::json::json_views(items@) =~= vector_json(
            crate::text::texts(vector@),
        )->Array_0);
    }
    res
}

/// The bind variables of a query: the query point `qp`.
pub open spec fn bind_json(vector: Seq<Seq<char>>) -> JsonView {
    JsonView::Object(seq![("qp"@, vector_json(vector))])
}

/// The bind variables of a query with the query point `vector`.
pub fn bind_vars(vector: &Vec<String>) -> (res: Json)
    ensures
        res@ == bind_json(crate::text::texts(vector@)),
{
    let qp = vector_value(vector);
    let ghost v = qp@;
    let entries: Vec<(String, Json)> = vec![("qp".to_owned(), qp)];
    let res = Json::Object(entries);
    proof {
        crate::json::lemma_view_parts(res);
        assert(crate::json::entry_views(entries@) =~= seq![("qp"@, v)]);
    }
    res
}

/// The origin of a space of this dimension.
pub open spec fn origin(dim: usize) -> Seq<Seq<char>> {
    Seq::new(dim as nat, |i: int| "0.0"@)
}

/// The origin has as many components as the space has dimensions, and each of them is zero.
pub proof fn law_origin(dim: usize, i: int)
    requires
        0 <= i < dim,
    ensures
        origin(dim).len() == dim,
        crate::decimal::read_decimal(origin(dim)[i]) matches Some(d) && crate::decimal::nat_of(
            d.digits,
        ) == 0,
{
    reveal_strlit("0.0");
    reveal_strlit("0");
    reveal_strlit(".");
    reveal_strlit("");
    let zero = "0"@;
    assert(crate::decimal::all_digits(zero));
    crate::decimal::law_point_form_is_read(false, zero, zero);
    assert("0.0"@ =~= crate::decimal::sign_text(false) + zero + "."@ + zero);
    let digits = zero + zero;
    assert(digits.drop_last() =~= zero);
    assert(zero.drop_last() =~= Seq::empty());
    assert(crate::decimal::nat_of(Seq::empty()) == 0);
    assert(crate::decimal::nat_of(zero) == 0);
    assert(crate::decimal::nat_of(digits) == 0);
}

/// The query point is bound under the name by which every query calls it, component by component;
/// and what is sent of a vector is what is read of one: a vector that was sampled is sent as it
/// was stored.
pub proof fn law_query_point_is_bound(vector: Seq<Seq<char>>, i: int)
    ensures
        crate::json::as_array(crate::json::member(bind_json(vector), "qp"@)) matches Some(items)
            && items.len() == vector.len() && components(items) == vector && (0 <= i < items.len()
            ==> crate::json::as_number(items[i]) == Some(vector[i])),
{
    let entries = bind_json(vector)->Object_0;
    crate::json::lemma_lookup_at(entries, 0);
    let items = vector_json(vector)->Array_0;
    assert(components(items) =~= vector);
}

/// The bind variables of a query with the origin as query point.
pub fn origin_vars(dim: usize) -> (res: Json)
    ensures
        res@ == bind_json(origin(dim)),
{
    let mut vector: Vec<String> = Vec::new();
    for i in 0..dim
        invariant
            vector@.len() == i,
            forall|k: int| 0 <= k < i ==> (#[trigger] vector@[k])@ == "0.0"@,
    {
        vector.push("0.0".to_owned());
    }
    assert(crate::text::texts(vector@) =~= origin(dim));
    bind_vars(&vector)
}

/// The bind variables of a query are in order, so that their text is that of `serde_json`.
pub proof fn law_bind_vars_ordered(vector: Seq<Seq<char>>)
    ensures
        crate::json::ordered(bind_json(vector)),
{
    reveal_with_fuel(crate::json::ordered, 3);
    assert(bind_json(vector)->Object_0[0].1 == vector_json(vector));
    assert forall|i: int| 0 <= i < vector_json(vector)->Array_0.len() implies crate::json::ordered(
        #[trigger] vector_json(vector)->Array_0[i],
    ) by {
        assert(vector_json(vector)->Array_0[i] == JsonView::Float(vector[i]));
    }
    assert(crate::json::ordered(vector_json(vector)));
}

// ---------------------------------------------------------------------------
// Rows
// ---------------------------------------------------------------------------

/// Why rows cannot be used.
pub enum RowError {
    /// A row has no integer under `k`.
    NoId { row: Json },
    /// A row has no number under `s`.
    NoScore,
    /// A row that should be a vector is not an array.
    NotAVector,
}

/// `message` is what the user is told of an error.
pub open spec fn is_row_message(e: RowError, message: Seq<char>) -> bool {
    match e {
        RowError::NoId { row } => crate::json::ordered(row@) ==> message
            == "row has no integer 'k' (idx) field: "@ + crate::json::json_text(
            crate::json::rendered(row@),
        ) + " — was the dataset built with this version of `vrecall setup`?"@,
        RowError::NoScore => message == "missing 's'"@,
        RowError::NotAVector => message == "query vector is not an array"@,
    }
}

impl RowError {
    /// What the user is told.
    pub fn message(&self) -> (res: String)
        ensures
            is_row_message(*self, res@),
    {
        match self {
            RowError::NoId { row } => {
                let mut out = "row has no integer 'k' (idx) field: ".to_owned();
                out.append(write_json(row).as_str());
                out.append(" — was the dataset built with this version of `vrecall setup`?");
                out
            },
            RowError::NoScore => "missing 's'".to_owned(),
            RowError::NotAVector => "query vector is not an array".to_owned(),
        }
    }
}

/// The id in a row.
pub open spec fn row_id(row: JsonView) -> Option<i64> {
    crate::json::as_i64(crate::json::member(row, "k"@))
}

/// The score in a row, in decimal.
pub open spec fn row_score(row: JsonView) -> Option<Seq<char>> {
    crate::json::as_number(crate::json::member(row, "s"@))
}

/// The first `n` rows all have an id and a score.
pub open spec fn rows_complete(rows: Seq<JsonView>, n: int) -> bool {
    forall|i: int|
        0 <= i < n ==> row_id(#[trigger] rows[i]) is Some && row_score(rows[i]) is Some
}

/// `res` holds the id and the score of each row, or the error of the first row that lacks one of
/// them.
pub open spec fn are_id_sims(
    all: Seq<JsonView>,
    res: Result<Vec<(i64, String)>, RowError>,
) -> bool {
    match res {
        Ok(list) => {
            &&& rows_complete(all, all.len() as int)
            &&& list@.len() == all.len()
            &&& forall|i: int|
                0 <= i < all.len() ==> {
                    &&& row_id(all[i]) == Some((#[trigger] list@[i]).0)
                    &&& row_score(all[i]) == Some(list@[i].1@)
                }
        },
        Err(RowError::NoId { row }) => exists|i: int|
            {
                &&& 0 <= i < all.len()
                &&& rows_complete(all, i)
                &&& row_id(#[trigger] all[i]) is None
                &&& row@ == all[i]
            },
        Err(RowError::NoScore) => exists|i: int|
            {
                &&& 0 <= i < all.len()
                &&& rows_complete(all, i)
                &&& row_id(#[trigger] all[i]) is Some
                &&& row_score(all[i]) is None
            },
        Err(RowError::NotAVector) => false,
    }
}

/// Of rows as the queries return them, `{k: <id>, s: <score>}`, each gives its own id and its own
/// score, in the order of the rows, which is that of nearness.
pub proof fn law_rows_give_ids_and_scores(
    found: Seq<(u64, Seq<char>)>,
    res: Result<Vec<(i64, String)>, RowError>,
)
    requires
        forall|i: int| 0 <= i < found.len() ==> (#[trigger] found[i]).0 <= i64::MAX,
        are_id_sims(
            found.map_values(
                |f: (u64, Seq<char>)|
                    JsonView::Object(
                        seq![("k"@, JsonView::Unsigned(f.0)), ("s"@, JsonView::Float(f.1))],
                    ),
            ),
            res,
        ),
    ensures
        res matches Ok(list) && list@.len() == found.len() && forall|i: int|
            0 <= i < found.len() ==> (#[trigger] list@[i]).0 == found[i].0 && list@[i].1@
                == found[i].1,
{
    reveal_strlit("k");
    reveal_strlit("s");
    assert("k"@[0] != "s"@[0]);
    let all = found.map_values(
        |f: (u64, Seq<char>)|
            JsonView::Object(
                seq![("k"@, JsonView::Unsigned(f.0)), ("s"@, JsonView::Float(f.1))],
            ),
    );
    assert forall|i: int| 0 <= i < all.len() implies row_id(#[trigger] all[i]) == Some(
        found[i].0 as i64,
    ) && row_score(all[i]) == Some(found[i].1) by {
        let entries = all[i]->Object_0;
        assert(found[i].0 <= i64::MAX);
        crate::json::lemma_lookup_at(entries, 0);
        crate::json::lemma_lookup_at(entries, 1);
    }
}

/// Rows are refused exactly where one has no integer under `k` or no number under `s`.
pub proof fn law_rows_are_refused_where_incomplete(
    all: Seq<JsonView>,
    res: Result<Vec<(i64, String)>, RowError>,
)
    requires
        are_id_sims(all, res),
    ensures
        res is Err <==> exists|i: int|
            0 <= i < all.len() && (crate::json::as_i64(
                crate::json::member(#[trigger] all[i], "k"@),
            ) is None || crate::json::as_number(crate::json::member(all[i], "s"@)) is None),
{
    match res {
        Ok(list) => {
            assert(rows_complete(all, all.len() as int));
        },
        Err(RowError::NoId { row }) => {
            let i = choose|i: int|
                {
                    &&& 0 <= i < all.len()
                    &&& rows_complete(all, i)
                    &&& row_id(#[trigger] all[i]) is None
                    &&& row@ == all[i]
                };
            assert(crate::json::as_i64(crate::json::member(all[i], "k"@)) is None);
        },
        Err(_) => {
            let i = choose|i: int|
                {
                    &&& 0 <= i < all.len()
                    &&& rows_complete(all, i)
                    &&& row_id(#[trigger] all[i]) is Some
                    &&& row_score(all[i]) is None
                };
            assert(crate::json::as_number(crate::json::member(all[i], "s"@)) is None);
        },
    }
}

/// The id and the score of each row, the score in decimal. The first row that lacks one of them
/// decides the error.
pub fn extract_id_sims(rows: &Vec<Json>) -> (res: Result<Vec<(i64, String)>, RowError>)
    ensures
        are_id_sims(crate::json::json_views(rows@), res),
{
    let ghost all = crate::json::json_views(rows@);
    let mut list: Vec<(i64, String)> = Vec::new();
    for i in 0..rows.len()
        invariant
            all == crate::json::json_views(rows@),
            rows_complete(all, i as int),
            list@.len() == i,
            forall|k: int|
                0 <= k < i ==> {
                    &&& row_id(all[k]) == Some((#[trigger] list@[k]).0)
                    &&& row_score(all[k]) == Some(list@[k].1@)
                },
    {
        assert(all[i as int] == rows@[i as int]@);
        let id = match rows[i].get("k") {
            Some(j) => j.as_i64(),
            None => None,
        };
        let id = match id {
            Some(id) => id,
            None => {
                return Err(RowError::NoId { row: rows[i].copy() });
            },
        };
        let score = match rows[i].get_number("s") {
            Some(score) => score,
            None => {
                return Err(RowError::NoScore);
            },
        };
        list.push((id, score));
    }
    Ok(list)
}

/// The components of a vector row, in decimal; what is not a number counts as 0.
pub open spec fn components(row: Seq<JsonView>) -> Seq<Seq<char>> {
    row.map_values(
        |v: JsonView|
            match crate::json::as_number(v) {
                Some(t) => t,
                None => "0"@,
            },
    )
}

/// A vector row has as many components as items, each the number of its item, and zero for an
/// item that is none.
pub proof fn law_components(row: Seq<JsonView>, i: int)
    requires
        0 <= i < row.len(),
    ensures
        components(row).len() == row.len(),
        crate::json::as_number(row[i]) is Some ==> Some(components(row)[i])
            == crate::json::as_number(row[i]),
        crate::json::as_number(row[i]) is None ==> crate::decimal::read_u64(components(row)[i])
            == Some(0u64),
{
    reveal_strlit("0");
    assert("0"@.drop_last() =~= Seq::empty());
    assert(crate::decimal::nat_of(Seq::empty()) == 0);
    assert(crate::decimal::nat_of("0"@) == 0);
    assert(crate::decimal::all_digits("0"@));
}

/// The components of a vector row, in decimal.
fn read_components(row: &Vec<Json>) -> (res: Vec<String>)
    ensures
        crate::text::texts(res@) == components(crate::json::json_views(row@)),
{
    let ghost all = crate::json::json_views(row@);
    let mut out: Vec<String> = Vec::new();
    for i in 0..row.len()
        invariant
            all == crate::json::json_views(row@),
            out@.len() == i,
            forall|k: int| 0 <= k < i ==> (#[trigger] out@[k])@ == components(all)[k],
    {
        let number = match row[i].as_number() {
            Some(t) => t,
            None => "0".to_owned(),
        };
        assert(all[i as int] == row@[i as int]@);
        out.push(number);
    }
    assert(crate::text::texts(out@) =~= components(all));
    out
}

/// `row` is an array, and `vector` holds its components.
pub open spec fn is_vector_row(row: JsonView, vector: Seq<String>) -> bool {
    crate::json::as_array(row) matches Some(items) && crate::text::texts(vector) == components(
        items,
    )
}

/// The query vectors in the rows of `sample_query`, each an array of numbers.
pub fn sample_vectors(rows: &Vec<Json>) -> (res: Result<Vec<Vec<String>>, RowError>)
    ensures
        ({
            let all = crate::json::json_views(rows@);
            match res {
                Ok(list) => {
                    &&& list@.len() == all.len()
                    &&& forall|i: int|
                        0 <= i < all.len() ==> is_vector_row(all[i], (#[trigger] list@[i])@)
                },
                Err(e) => {
                    &&& e is NotAVector
                    &&& exists|i: int|
                        0 <= i < all.len() && crate::json::as_array(#[trigger] all[i]) is None
                },
            }
        }),
{
    let ghost all = crate::json::json_views(rows@);
    let mut list: Vec<Vec<String>> = Vec::new();
    for i in 0..rows.len()
        invariant
            all == crate::json::json_views(rows@),
            list@.len() == i,
            forall|k: int|
                0 <= k < i ==> is_vector_row(all[k], (#[trigger] list@[k])@),
    {
        assert(all[i as int] == rows@[i as int]@);
        match rows[i].as_array() {
            Some(row) => {
                list.push(read_components(row));
            },
            None => {
                return Err(RowError::NotAVector);
            },
        }
    }
    Ok(list)
}

} // verus!
