//! What a benchmark measures: the index under test and its operating points.

use crate::args::BenchArgs;
use crate::decimal::{parse_double, Decimal};
use crate::double::Double;
use crate::indexes::{
    find_named, find_vector_index, index_alpha, is_graph_index, resolve_nlists,
};
use crate::json::{Json, JsonView};
use crate::metric::{Metric, MetricError};
use crate::order::{distinct_sorted, distinct_sorted_usize};
use crate::query::{graph_tuned_query, ivf_approx_query, ivf_target_query};
use crate::text::push_dec;
use vstd::prelude::*;
use vstd::string::*;

verus! {

// ---------------------------------------------------------------------------
// Errors
// ---------------------------------------------------------------------------

/// Why there is nothing to benchmark.
#[allow(inconsistent_fields)]
pub enum BenchError {
    /// The database does not exist.
    NoDatabase { db: String },
    /// The reply does not list the indexes.
    NoListing,
    /// The collection has no index of that name.
    NoSuchIndex { name: String },
    /// The collection has no vector index.
    NoVectorIndex,
    /// The index has no name.
    NoName,
    /// The index has no id.
    NoId,
    /// The index does not tell its dimension.
    NoDimension,
    /// No cutoff was given.
    NoTopK,
    /// A vector-graph index does not tell its metric.
    NoMetric,
    /// The metric of a vector-graph index cannot be benchmarked.
    Metric(MetricError),
    /// The index does not tell its nLists.
    NoLists,
    /// The target recall is not in (0, 1].
    BadTarget { target: String },
    /// No nProbe value is left.
    NoProbes { nlists: u64 },
    /// There are no queries.
    NoQueries,
}

/// What the user is told, but for a metric that cannot be benchmarked.
pub open spec fn bench_message(e: BenchError) -> Seq<char> {
    match e {
        BenchError::NoDatabase { db } => "Database '"@ + db@
            + "' not found. Run `vrecall setup` first."@,
        BenchError::NoListing => "indexes missing"@,
        BenchError::NoSuchIndex { name } => "no index named '"@ + name@
            + "' found on the collection"@,
        BenchError::NoVectorIndex => "no vector index found on the collection"@,
        BenchError::NoName => "index has no name field"@,
        BenchError::NoId => "index has no id field"@,
        BenchError::NoDimension => "could not determine dimension from index definition"@,
        BenchError::NoTopK => "--topk is empty"@,
        BenchError::NoMetric => "vector-graph index has no metric"@,
        BenchError::Metric(MetricError::NotForGraph { word }) =>
        "vector-graph bench supports metric cosine or l2, got '"@ + word@ + "'"@,
        BenchError::Metric(MetricError::Unrecognized { word }) => "unrecognized metric '"@ + word@
            + "'; use --metric cosine|l2|dot"@,
        BenchError::NoLists => "could not determine nLists from index definition"@,
        BenchError::BadTarget { target } => "--target-recall must be a number in (0, 1], got "@
            + target@,
        BenchError::NoProbes { nlists } => "no nProbe values remain after clamping to nLists="@
            + crate::text::dec(nlists as nat),
        BenchError::NoQueries => "no query vectors available"@,
    }
}

impl BenchError {
    /// What the user is told.
    pub fn message(&self) -> (res: String)
        ensures
            res@ == bench_message(*self),
    {
        match self {
            BenchError::NoDatabase { db } => {
                let mut out = "Database '".to_owned();
                out.append(db.as_str());
                out.append("' not found. Run `vrecall setup` first.");
                out
            },
            BenchError::NoListing => "indexes missing".to_owned(),
            BenchError::NoSuchIndex { name } => {
                let mut out = "no index named '".to_owned();
                out.append(name.as_str());
                out.append("' found on the collection");
                out
            },
            BenchError::NoVectorIndex => "no vector index found on the collection".to_owned(),
            BenchError::NoName => "index has no name field".to_owned(),
            BenchError::NoId => "index has no id field".to_owned(),
            BenchError::NoDimension =>
                "could not determine dimension from index definition".to_owned(),
            BenchError::NoTopK => "--topk is empty".to_owned(),
            BenchError::NoMetric => "vector-graph index has no metric".to_owned(),
            BenchError::Metric(e) => e.message(),
            BenchError::NoLists => "could not determine nLists from index definition".to_owned(),
            BenchError::BadTarget { target } => {
                let mut out = "--target-recall must be a number in (0, 1], got ".to_owned();
                out.append(target.as_str());
                out
            },
            BenchError::NoProbes { nlists } => {
                let mut out = "no nProbe values remain after clamping to nLists=".to_owned();
                push_dec(&mut out, *nlists);
                out
            },
            BenchError::NoQueries => "no query vectors available".to_owned(),
        }
    }
}

// ---------------------------------------------------------------------------
// The index under test
// ---------------------------------------------------------------------------

/// The position of the index under test in a listing: the one with the name that was asked for,
/// else the first vector index.
pub open spec fn chosen_at(list: Seq<JsonView>, wanted: Option<Seq<char>>) -> int {
    match wanted {
        Some(name) => crate::indexes::named_at(list, name, 0),
        None => crate::indexes::vector_at(list, 0),
    }
}

/// The index under test is the first with the name that was asked for, whatever its type; where
/// no name was asked for it is the first of a vector type, whatever its name.
pub proof fn law_index_under_test(list: Seq<JsonView>, wanted: Option<Seq<char>>)
    ensures
        match (crate::indexes::item_at(list, chosen_at(list, wanted)), wanted) {
            (Some(idx), Some(name)) => crate::indexes::index_name(idx) == Some(name),
            (Some(idx), None) => crate::indexes::of_vector_type(idx),
            (None, Some(name)) => forall|i: int|
                0 <= i < list.len() ==> crate::indexes::index_name(#[trigger] list[i]) != Some(
                    name,
                ),
            (None, None) => forall|i: int|
                0 <= i < list.len() ==> !crate::indexes::of_vector_type(#[trigger] list[i]),
        },
        crate::indexes::item_at(list, chosen_at(list, wanted)) matches Some(idx) ==> exists|i: int|
            0 <= i < list.len() && #[trigger] list[i] == idx && (wanted matches Some(name)
                ==> forall|j: int|
                0 <= j < i ==> crate::indexes::index_name(#[trigger] list[j]) != Some(name)) && (
            wanted is None ==> forall|j: int|
                0 <= j < i ==> !crate::indexes::of_vector_type(#[trigger] list[j])),
{
    match wanted {
        Some(name) => {
            crate::indexes::law_find_named(list, name);
        },
        None => {
            crate::indexes::law_find_vector(list);
        },
    }
}

/// `res` is the index under test in a listing, or why there is none.
pub open spec fn is_selected(
    listing: JsonView,
    wanted: Option<Seq<char>>,
    res: Result<&Json, BenchError>,
) -> bool {
    match crate::indexes::listed(listing) {
        None => res matches Err(BenchError::NoListing),
        Some(list) => match crate::indexes::item_at(list, chosen_at(list, wanted)) {
            Some(idx) => res matches Ok(r) && r@ == idx,
            None => match wanted {
                Some(name) => res matches Err(BenchError::NoSuchIndex { name: n }) && n@ == name,
                None => res matches Err(BenchError::NoVectorIndex),
            },
        },
    }
}

/// An index is selected exactly where the listing holds one with the name that was asked for, or
/// of a vector type where none was; it is one of the listing and is what was asked for. Else the
/// user is told which of them is missing.
pub proof fn law_selection(
    listing: JsonView,
    wanted: Option<Seq<char>>,
    res: Result<&Json, BenchError>,
)
    requires
        is_selected(listing, wanted, res),
    ensures
        (res matches Err(BenchError::NoListing)) <==> !(crate::json::member(
            listing,
            "indexes"@,
        ) is Array),
        crate::json::member(listing, "indexes"@) matches JsonView::Array(list) ==> {
            &&& res matches Ok(r) ==> list.contains(r@) && (wanted matches Some(name)
                ==> crate::indexes::index_name(r@) == Some(name)) && (wanted is None
                ==> crate::indexes::of_vector_type(r@))
            &&& wanted is None ==> (res is Ok <==> exists|i: int|
                0 <= i < list.len() && crate::indexes::of_vector_type(#[trigger] list[i]))
            &&& wanted matches Some(name) ==> (res is Ok <==> exists|i: int|
                0 <= i < list.len() && crate::indexes::index_name(#[trigger] list[i]) == Some(name))
            &&& res matches Err(BenchError::NoSuchIndex { name }) ==> wanted == Some(name@)
            &&& res matches Err(BenchError::NoVectorIndex) ==> wanted is None
        },
{
    if let JsonView::Array(list) = crate::json::member(listing, "indexes"@) {
        law_index_under_test(list, wanted);
        if let Some(idx) = crate::indexes::item_at(list, chosen_at(list, wanted)) {
            let i = choose|i: int| 0 <= i < list.len() && #[trigger] list[i] == idx;
            assert(list.contains(list[i]));
        }
    }
}

/// The index under test: the one with the name that was asked for, else the first vector index.
pub fn select_index<'a>(listing: &'a Json, wanted: Option<&str>) -> (res: Result<
    &'a Json,
    BenchError,
>)
    ensures
        is_selected(listing@, crate::json::opt_str(wanted), res),
{
    let list = match listing.get_array("indexes") {
        Some(list) => list,
        None => {
            return Err(BenchError::NoListing);
        },
    };
    match wanted {
        Some(name) => match find_named(list, name) {
            Some(idx) => Ok(idx),
            None => Err(BenchError::NoSuchIndex { name: name.to_owned() }),
        },
        None => match find_vector_index(list) {
            Some(idx) => Ok(idx),
            None => Err(BenchError::NoVectorIndex),
        },
    }
}

/// What every index under test tells of itself.
pub struct IndexFacts {
    pub name: String,
    /// Full index handle ("collection/id"), used for the autotune endpoints.
    pub id: String,
    /// Vector dimension.
    pub dimension: u64,
}

/// The id of an index.
pub open spec fn index_id(idx: JsonView) -> Option<Seq<char>> {
    crate::json::as_str(crate::json::member(idx, "id"@))
}

/// The dimension of an index.
pub open spec fn index_dimension(idx: JsonView) -> Option<u64> {
    crate::json::as_u64(crate::json::member(crate::json::member(idx, "params"@), "dimension"@))
}

/// `res` is what an index tells of itself, or the error of the first thing that it does not.
pub open spec fn are_facts(idx: JsonView, res: Result<IndexFacts, BenchError>) -> bool {
    match (crate::indexes::index_name(idx), index_id(idx), index_dimension(idx)) {
        (None, _, _) => res matches Err(BenchError::NoName),
        (Some(_), None, _) => res matches Err(BenchError::NoId),
        (Some(_), Some(_), None) => res matches Err(BenchError::NoDimension),
        (Some(name), Some(id), Some(dimension)) => res matches Ok(f) && f.name@ == name && f.id@
            == id && f.dimension == dimension,
    }
}

/// An index tells its name, its id and, among its parameters, its dimension; the first of them
/// that is missing is the one that the user is told of.
pub proof fn law_facts_of_an_index(idx: JsonView, res: Result<IndexFacts, BenchError>)
    requires
        are_facts(idx, res),
    ensures
        ({
            let name = crate::json::member(idx, "name"@);
            let id = crate::json::member(idx, "id"@);
            let dimension = crate::json::member(crate::json::member(idx, "params"@), "dimension"@);
            &&& res is Ok <==> name is Text && id is Text && dimension is Unsigned
            &&& res matches Ok(f) ==> name == JsonView::Text(f.name@) && id == JsonView::Text(
                f.id@,
            ) && dimension == JsonView::Unsigned(f.dimension)
            &&& (res matches Err(BenchError::NoName)) <==> !(name is Text)
            &&& (res matches Err(BenchError::NoId)) <==> name is Text && !(id is Text)
            &&& (res matches Err(BenchError::NoDimension)) <==> name is Text && id is Text && !(
            dimension is Unsigned)
        }),
{
}

/// What the index under test tells of itself: its name, its id and its dimension, none of
/// which may be missing.
pub fn index_facts(idx: &Json) -> (res: Result<IndexFacts, BenchError>)
    ensures
        are_facts(idx@, res),
{
    let name = match idx.get_str("name") {
        Some(name) => name.to_owned(),
        None => {
            return Err(BenchError::NoName);
        },
    };
    let id = match idx.get_str("id") {
        Some(id) => id.to_owned(),
        None => {
            return Err(BenchError::NoId);
        },
    };
    let dimension = match idx.get("params") {
        Some(params) => params.get_u64("dimension"),
        None => None,
    };
    match dimension {
        Some(dimension) => Ok(IndexFacts { name, id, dimension }),
        None => Err(BenchError::NoDimension),
    }
}

// ---------------------------------------------------------------------------
// The plan of a benchmark
// ---------------------------------------------------------------------------

/// Static facts about an IVF index under test.
pub struct IndexInfo {
    /// Number of documents in the collection.
    pub count: u64,
    /// Vector dimension.
    pub dimension: u64,
    /// Resolved IVF nLists of the index.
    pub nlists: u64,
    /// Index name.
    pub name: String,
    /// Full index handle ("collection/id"), used for the autotune endpoints.
    pub id: String,
}

/// Static facts about a vector-graph index under test. It has no nLists (no
/// training); its tunables are the Vamana build parameters maxDegree and alpha.
pub struct GraphInfo {
    pub count: u64,
    pub dimension: u64,
    pub name: String,
    pub metric: Metric,
    pub max_degree: u64,
    /// Alpha in decimal.
    pub alpha: String,
}

/// What is measured.
pub enum BenchPlan {
    /// The nProbe values are swept.
    Sweep { info: IndexInfo, ks: Vec<usize>, nprobes: Vec<u64> },
    /// The server is asked for a recall.
    Target { info: IndexInfo, ks: Vec<usize>, target: String },
    /// The index has a single operating point; the cutoffs are swept.
    Graph { graph: GraphInfo, ks: Vec<usize> },
}

impl BenchPlan {
    /// The cutoffs that are reported.
    pub open spec fn cutoffs(&self) -> Seq<usize> {
        match *self {
            BenchPlan::Sweep { ks, .. } => ks@,
            BenchPlan::Target { ks, .. } => ks@,
            BenchPlan::Graph { ks, .. } => ks@,
        }
    }

    /// The number of measurements: one for each nProbe value of a sweep, one for a target
    /// recall, one for each cutoff of a vector-graph index.
    pub open spec fn measurements(&self) -> nat {
        match *self {
            BenchPlan::Sweep { nprobes, .. } => nprobes@.len(),
            BenchPlan::Target { .. } => 1,
            BenchPlan::Graph { ks, .. } => ks@.len(),
        }
    }

    /// There is a cutoff and something to measure, and the cutoffs ascend.
    pub open spec fn wf(&self) -> bool {
        &&& self.cutoffs().len() > 0
        &&& self.measurements() > 0
        &&& forall|i: int, j: int|
            0 <= i < j < self.cutoffs().len() ==> self.cutoffs()[i] < self.cutoffs()[j]
    }
}

/// A number held at a limit.
pub open spec fn held_at(x: u64, limit: u64) -> u64 {
    if x <= limit {
        x
    } else {
        limit
    }
}

/// `out` are the numbers of `list`, each held at `limit`, without repetition and in ascending
/// order.
pub open spec fn is_sweep(list: Seq<u64>, limit: u64, out: Seq<u64>) -> bool {
    &&& forall|i: int, j: int| 0 <= i < j < out.len() ==> out[i] < out[j]
    &&& forall|x: u64| #[trigger]
        out.contains(x) <==> exists|i: int|
            0 <= i < list.len() && x == held_at(#[trigger] list[i], limit)
}

/// The nProbe values of a sweep: those that were asked for, clamped to nLists.
pub fn clamp_nprobes(nprobes: &[u64], nlists: u64) -> (res: Vec<u64>)
    ensures
        is_sweep(nprobes@, nlists, res@),
        nprobes@.len() > 0 ==> res@.len() > 0,
{
    let mut held: Vec<u64> = Vec::new();
    for i in 0..nprobes.len()
        invariant
            held@.len() == i,
            forall|k: int| 0 <= k < i ==> held@[k] == held_at(#[trigger] nprobes@[k], nlists),
    {
        held.push(
            if nprobes[i] <= nlists {
                nprobes[i]
            } else {
                nlists
            },
        );
    }
    let out = distinct_sorted(&held);
    proof {
        let wide = crate::text::nats(held@);
        let done = crate::text::nats(out@);
        assert forall|i: int, j: int| 0 <= i < j < out@.len() implies out@[i] < out@[j] by {
            assert(done[i] < done[j]);
        }
        assert forall|x: u64| #[trigger] out@.contains(x) implies exists|i: int|
            0 <= i < nprobes@.len() && x == held_at(#[trigger] nprobes@[i], nlists) by {
            let k = choose|k: int| 0 <= k < out@.len() && out@[k] == x;
            assert(done[k] == x as nat);
            assert(done.contains(x as nat));
            let m = choose|m: int| 0 <= m < wide.len() && wide[m] == x as nat;
            assert(held@[m] == x);
            assert(x == held_at(nprobes@[m], nlists));
        }
        assert forall|i: int| 0 <= i < nprobes@.len() implies out@.contains(
            held_at(#[trigger] nprobes@[i], nlists),
        ) by {
            assert(wide[i] == held@[i] as nat);
            assert(wide.contains(held@[i] as nat));
            assert(done.contains(held@[i] as nat));
            let k = choose|k: int| 0 <= k < done.len() && done[k] == held@[i] as nat;
            assert(out@[k] == held@[i]);
        }
        if nprobes@.len() > 0 {
            assert(out@.contains(held_at(nprobes@[0], nlists)));
        }
    }
    out
}

/// A number, in decimal, that lies in (0, 1] as a double.
pub open spec fn is_target(target: Seq<char>) -> bool {
    crate::decimal::read_double(target) matches Some(d) && {
        let t = crate::double::double_of(d).value();
        &&& crate::double::double_of(decimal_zero()).value() < t
        &&& t <= crate::double::double_of(decimal_one()).value()
    }
}

/// Zero.
pub open spec fn decimal_zero() -> crate::decimal::DecimalView {
    crate::decimal::DecimalView { negative: false, digits: seq!['0'], exponent: 0 }
}

/// One.
pub open spec fn decimal_one() -> crate::decimal::DecimalView {
    crate::decimal::DecimalView { negative: false, digits: seq!['1'], exponent: 0 }
}

/// A target is a number whose double is more than 0 and at most 1, which is 2^1074 of the units in
/// which the values of doubles are given.
pub proof fn law_targets_are_up_to_one(target: Seq<char>)
    ensures
        is_target(target) <==> (crate::decimal::read_double(target) matches Some(d) && 0
            < crate::double::double_of(d).value() <= vstd::arithmetic::power::pow(2, 1074)),
{
    let zero = decimal_zero();
    let one = decimal_one();
    assert(zero.digits.drop_last() =~= Seq::empty());
    assert(one.digits.drop_last() =~= Seq::empty());
    assert(crate::decimal::nat_of(Seq::empty()) == 0);
    assert(crate::decimal::nat_of(zero.digits) == 0);
    assert(crate::decimal::nat_of(one.digits) == 1);
    crate::double::law_zero_and_one(zero, one);
}

/// Whether a number, in decimal, lies in (0, 1] as a double.
pub fn valid_target(target: &str) -> (res: bool)
    ensures
        res == is_target(target@),
{
    let zero = Decimal { negative: false, digits: vec!['0'], exponent: 0 };
    let one = Decimal { negative: false, digits: vec!['1'], exponent: 0 };
    assert(zero@.digits =~= decimal_zero().digits);
    assert(one@.digits =~= decimal_one().digits);
    assert(crate::decimal::all_digits(zero.digits@));
    assert(crate::decimal::all_digits(one.digits@));
    match parse_double(target) {
        Some(d) => {
            let t = Double::of(&d);
            !t.is_at_most(&Double::of(&zero)) && t.is_at_most(&Double::of(&one))
        },
        None => false,
    }
}

/// The metric that a vector-graph index tells.
pub open spec fn graph_metric(idx: JsonView) -> Option<Seq<char>> {
    crate::json::as_str(crate::json::member(crate::json::member(idx, "params"@), "metric"@))
}

/// `res` is the plan of a benchmark of a vector-graph index, or the error where its metric
/// cannot be benchmarked.
pub open spec fn is_graph_plan(
    idx: JsonView,
    facts: IndexFacts,
    count: u64,
    ks: Seq<nat>,
    res: Result<BenchPlan, BenchError>,
) -> bool {
    match graph_metric(idx) {
        None => res matches Err(BenchError::NoMetric),
        Some(m) => match res {
            Ok(BenchPlan::Graph { graph, ks: out }) => {
                &&& m == crate::metric::metric_label(graph.metric)
                &&& graph.count == count
                &&& graph.dimension == facts.dimension
                &&& graph.name == facts.name
                &&& graph.max_degree == crate::indexes::number_or(
                    crate::json::member(crate::json::member(idx, "params"@), "maxDegree"@),
                    0,
                )
                &&& graph.alpha@ == crate::indexes::alpha_of(idx)
                &&& crate::order::is_distinct_sorted(ks, crate::text::usize_nats(out@))
            },
            Err(BenchError::Metric(MetricError::NotForGraph { word })) => {
                &&& m != crate::metric::metric_label(Metric::Cosine)
                &&& m != crate::metric::metric_label(Metric::L2)
                &&& word@ == m
            },
            _ => false,
        },
    }
}

/// The facts of an IVF index under test.
pub open spec fn is_info(info: IndexInfo, facts: IndexFacts, count: u64, nlists: u64) -> bool {
    &&& info.count == count
    &&& info.dimension == facts.dimension
    &&& info.nlists == nlists
    &&& info.name == facts.name
    &&& info.id == facts.id
}

/// `res` is the plan of a benchmark of an IVF index: for the target recall where one is given,
/// which must lie in (0, 1]; else a sweep of the nProbe values, clamped to nLists, of which there
/// must be one.
pub open spec fn is_ivf_plan(
    idx: JsonView,
    args: BenchArgs,
    facts: IndexFacts,
    count: u64,
    res: Result<BenchPlan, BenchError>,
) -> bool {
    let wanted = crate::text::usize_nats(args.topk@);
    match crate::indexes::tested_nlists(idx) {
        None => res matches Err(BenchError::NoLists),
        Some(nlists) => match args.target_recall {
            Some(target) => if is_target(target@) {
                res matches Ok(BenchPlan::Target { info, ks, target: t }) && is_info(
                    info,
                    facts,
                    count,
                    nlists,
                ) && crate::order::is_distinct_sorted(wanted, crate::text::usize_nats(ks@)) && t@
                    == target@
            } else {
                res matches Err(BenchError::BadTarget { target: t }) && t@ == target@
            },
            None => match res {
                Ok(BenchPlan::Sweep { info, ks, nprobes }) => {
                    &&& is_info(info, facts, count, nlists)
                    &&& crate::order::is_distinct_sorted(wanted, crate::text::usize_nats(ks@))
                    &&& is_sweep(args.nprobes@, nlists, nprobes@)
                    &&& nprobes@.len() > 0
                },
                Err(BenchError::NoProbes { nlists: n }) => {
                    &&& n == nlists
                    &&& args.nprobes@.len() == 0
                },
                _ => false,
            },
        },
    }
}

/// `res` is what is measured of the index under test, or why nothing is.
pub open spec fn is_bench_plan(
    idx: JsonView,
    args: BenchArgs,
    facts: IndexFacts,
    count: u64,
    res: Result<BenchPlan, BenchError>,
) -> bool {
    if args.topk@.len() == 0 {
        res matches Err(BenchError::NoTopK)
    } else if crate::indexes::is_graph(idx) {
        is_graph_plan(idx, facts, count, crate::text::usize_nats(args.topk@), res)
    } else {
        is_ivf_plan(idx, args, facts, count, res)
    }
}

/// The name of the index that a plan measures, the number of its documents and its dimension.
pub open spec fn measured_index(plan: BenchPlan) -> (Seq<char>, u64, u64) {
    match plan {
        BenchPlan::Sweep { info, .. } => (info.name@, info.count, info.dimension),
        BenchPlan::Target { info, .. } => (info.name@, info.count, info.dimension),
        BenchPlan::Graph { graph, .. } => (graph.name@, graph.count, graph.dimension),
    }
}

proof fn lemma_cutoffs(wanted: Seq<usize>, ks: Seq<usize>, k: usize)
    requires
        crate::order::is_distinct_sorted(
            crate::text::usize_nats(wanted),
            crate::text::usize_nats(ks),
        ),
    ensures
        ks.contains(k) <==> wanted.contains(k),
{
    let a = crate::text::usize_nats(wanted);
    let b = crate::text::usize_nats(ks);
    if ks.contains(k) {
        let i = choose|i: int| 0 <= i < ks.len() && ks[i] == k;
        assert(b[i] == k as nat);
        assert(b.contains(k as nat));
        let j = choose|j: int| 0 <= j < a.len() && a[j] == k as nat;
        assert(wanted[j] == k);
    }
    if wanted.contains(k) {
        let i = choose|i: int| 0 <= i < wanted.len() && wanted[i] == k;
        assert(a[i] == k as nat);
        assert(a.contains(k as nat));
        assert(b.contains(k as nat));
        let j = choose|j: int| 0 <= j < b.len() && b[j] == k as nat;
        assert(ks[j] == k);
    }
}

/// The plan is of the index under test and of what was asked for: its cutoffs are exactly those
/// that were given; an index of the type `vector-graph` is measured as such, by its own metric;
/// any other for the target recall where one is given, which is kept as it was given, and else
/// by a sweep of the nProbe values, up to the nLists under test.
pub proof fn law_plan_is_of_what_was_asked(
    idx: JsonView,
    args: BenchArgs,
    facts: IndexFacts,
    count: u64,
    plan: BenchPlan,
    k: usize,
)
    requires
        is_bench_plan(idx, args, facts, count, Ok(plan)),
    ensures
        plan.cutoffs().contains(k) <==> args.topk@.contains(k),
        measured_index(plan) == (facts.name@, count, facts.dimension),
        plan is Graph <==> crate::json::member(idx, "type"@) == JsonView::Text("vector-graph"@),
        plan is Target <==> !(plan is Graph) && args.target_recall is Some,
        plan is Sweep <==> !(plan is Graph) && args.target_recall is None,
        plan matches BenchPlan::Graph { graph, .. } ==> crate::json::member(
            crate::json::member(idx, "params"@),
            "metric"@,
        ) == JsonView::Text(
            match graph.metric {
                Metric::Cosine => "cosine"@,
                Metric::L2 => "l2"@,
            },
        ),
        plan matches BenchPlan::Graph { graph, .. } ==> (match crate::json::member(
            crate::json::member(idx, "params"@),
            "maxDegree"@,
        ) {
            JsonView::Unsigned(n) => graph.max_degree == n,
            _ => graph.max_degree == 0,
        }),
        plan matches BenchPlan::Graph { graph, .. } ==> (match crate::json::as_number(
            crate::json::member(crate::json::member(idx, "params"@), "alpha"@),
        ) {
            Some(t) => graph.alpha@ == t,
            None => graph.alpha@ == "0"@,
        }),
        plan matches BenchPlan::Target { info, target, .. } ==> target@
            == args.target_recall->0@ && info.id@ == facts.id@ && Some(info.nlists)
            == crate::indexes::tested_nlists(idx),
        plan matches BenchPlan::Sweep { info, nprobes, .. } ==> info.id@ == facts.id@ && Some(
            info.nlists,
        ) == crate::indexes::tested_nlists(idx) && forall|i: int|
            0 <= i < nprobes@.len() ==> (#[trigger] nprobes@[i]) <= info.nlists,
{
    lemma_cutoffs(args.topk@, plan.cutoffs(), k);
    if let BenchPlan::Sweep { info, nprobes, .. } = plan {
        law_sweep_is_clamped(args.nprobes@, info.nlists, nprobes@);
    }
}

/// There is no plan exactly for these reasons: no cutoff; of a vector-graph index a metric that
/// is missing or neither cosine nor l2; of another index no nLists, a target recall that is none,
/// or nothing to sweep.
pub proof fn law_reasons_for_no_plan(
    idx: JsonView,
    args: BenchArgs,
    facts: IndexFacts,
    count: u64,
    res: Result<BenchPlan, BenchError>,
)
    requires
        is_bench_plan(idx, args, facts, count, res),
    ensures
        ({
            let graph = crate::json::member(idx, "type"@) == JsonView::Text("vector-graph"@);
            let metric = crate::json::member(crate::json::member(idx, "params"@), "metric"@);
            let target = args.target_recall;
            &&& res is Ok <==> args.topk@.len() > 0 && (if graph {
                metric == JsonView::Text("cosine"@) || metric == JsonView::Text("l2"@)
            } else {
                crate::indexes::tested_nlists(idx) is Some && (target matches Some(t) ==> is_target(
                    t@,
                )) && (target is None ==> args.nprobes@.len() > 0)
            })
            &&& (res matches Err(BenchError::NoTopK)) <==> args.topk@.len() == 0
            &&& res matches Err(BenchError::NoMetric) ==> graph && !(metric is Text)
            &&& res matches Err(BenchError::Metric(_)) ==> graph && metric is Text
            &&& res matches Err(BenchError::NoLists) ==> !graph && crate::indexes::tested_nlists(
                idx,
            ) is None
            &&& res matches Err(BenchError::BadTarget { target: t }) ==> !graph && (
            target matches Some(given) && given@ == t@ && !is_target(t@))
            &&& res matches Err(BenchError::NoProbes { nlists }) ==> !graph && target is None
                && args.nprobes@.len() == 0 && crate::indexes::tested_nlists(idx) == Some(nlists)
        }),
{
    if res is Ok && args.target_recall is None && args.topk@.len() > 0 && !crate::indexes::is_graph(
        idx,
    ) {
        if let Ok(BenchPlan::Sweep { info, nprobes, .. }) = res {
            assert(nprobes@.contains(nprobes@[0]));
            assert(exists|i: int|
                0 <= i < args.nprobes@.len() && nprobes@[0] == held_at(
                    #[trigger] args.nprobes@[i],
                    info.nlists,
                ));
        }
    }
}

/// What is measured, with `facts` what the index under test tells and `count` the number of
/// documents in the collection. A vector-graph index has a single fixed operating point (no
/// nLists, nProbe, or autotune), so it takes a separate, simpler measurement path.
pub fn plan_bench(args: &BenchArgs, idx: &Json, facts: IndexFacts, count: u64) -> (res: Result<
    BenchPlan,
    BenchError,
>)
    ensures
        is_bench_plan(idx@, *args, facts, count, res),
        res matches Ok(plan) ==> plan.wf(),
{
    let ks = distinct_sorted_usize(&args.topk);
    if ks.len() == 0 {
        return Err(BenchError::NoTopK);
    }
    proof {
        let nats = crate::text::usize_nats(ks@);
        assert forall|i: int, j: int| 0 <= i < j < ks@.len() implies ks@[i] < ks@[j] by {
            assert(nats[i] < nats[j]);
        }
    }
    if is_graph_index(idx) {
        return plan_graph(idx, facts, count, ks);
    }
    let nlists = match resolve_nlists(idx) {
        Some(nlists) => nlists,
        None => {
            return Err(BenchError::NoLists);
        },
    };
    let info = IndexInfo {
        count,
        dimension: facts.dimension,
        nlists,
        name: facts.name,
        id: facts.id,
    };
    if let Some(target) = &args.target_recall {
        if !valid_target(target.as_str()) {
            return Err(BenchError::BadTarget { target: target.clone() });
        }
        return Ok(BenchPlan::Target { info, ks, target: target.clone() });
    }
    let nprobes = clamp_nprobes(&args.nprobes, nlists);
    if nprobes.len() == 0 {
        return Err(BenchError::NoProbes { nlists });
    }
    Ok(BenchPlan::Sweep { info, ks, nprobes })
}

/// What is measured of a vector-graph index.
fn plan_graph(idx: &Json, facts: IndexFacts, count: u64, ks: Vec<usize>) -> (res: Result<
    BenchPlan,
    BenchError,
>)
    ensures
        forall|wanted: Seq<nat>|
            crate::order::is_distinct_sorted(wanted, crate::text::usize_nats(ks@))
                ==> #[trigger] is_graph_plan(idx@, facts, count, wanted, res),
        res matches Ok(plan) ==> plan.cutoffs() == ks@ && plan is Graph,
{
    let params = match idx.get("params") {
        Some(params) => params,
        None => {
            return Err(BenchError::NoMetric);
        },
    };
    let metric = match params.get_str("metric") {
        Some(m) => match Metric::parse(m) {
            Ok(metric) => metric,
            Err(e) => {
                return Err(BenchError::Metric(e));
            },
        },
        None => {
            return Err(BenchError::NoMetric);
        },
    };
    let max_degree: u64 = match params.get_u64("maxDegree") {
        Some(n) => n,
        None => 0,
    };
    let alpha = index_alpha(idx);
    Ok(
        BenchPlan::Graph {
            graph: GraphInfo {
                count,
                dimension: facts.dimension,
                name: facts.name,
                metric,
                max_degree,
                alpha,
            },
            ks,
        },
    )
}

// ---------------------------------------------------------------------------
// The measurements of a plan
// ---------------------------------------------------------------------------

/// The query of the `i`-th measurement: of a sweep with its nProbe value and of a target recall
/// with the target, both up to the greatest cutoff; of a vector-graph index up to the cutoff
/// that is measured.
pub open spec fn measurement_text(
    plan: BenchPlan,
    args: BenchArgs,
    coll: Seq<char>,
    i: int,
) -> Seq<char> {
    match plan {
        BenchPlan::Sweep { info, ks, nprobes } => crate::query::ivf_text(
            coll,
            info.name@,
            crate::query::nprobe_option(nprobes@[i]),
            ks@.last() as nat,
        ),
        BenchPlan::Target { info, ks, target } => crate::query::ivf_text(
            coll,
            info.name@,
            crate::query::target_option(target@),
            ks@.last() as nat,
        ),
        BenchPlan::Graph { graph, ks } => crate::query::graph_text(
            coll,
            graph.name@,
            graph.metric,
            ks@[i] as nat,
            crate::query::graph_options(args.search_list_size, args.rerank),
        ),
    }
}

/// The query of the `i`-th measurement of a plan.
pub fn measurement_query(plan: &BenchPlan, args: &BenchArgs, coll: &str, i: usize) -> (res: String)
    requires
        plan.wf(),
        i < plan.measurements(),
    ensures
        res@ == measurement_text(*plan, *args, coll@, i as int),
{
    match plan {
        BenchPlan::Sweep { info, ks, nprobes } => ivf_approx_query(
            coll,
            info.name.as_str(),
            ks[ks.len() - 1],
            nprobes[i],
        ),
        BenchPlan::Target { info, ks, target } => ivf_target_query(
            coll,
            info.name.as_str(),
            ks[ks.len() - 1],
            target.as_str(),
        ),
        BenchPlan::Graph { graph, ks } => graph_tuned_query(
            coll,
            graph.name.as_str(),
            graph.metric,
            ks[i],
            args.search_list_size,
            args.rerank,
        ),
    }
}

/// The metric of the ground truth: that of a vector-graph index; the IVF query path is
/// cosine-only.
pub open spec fn scored_by(plan: BenchPlan) -> Metric {
    match plan {
        BenchPlan::Graph { graph, .. } => graph.metric,
        _ => Metric::Cosine,
    }
}

/// The metric of the ground truth of a plan.
pub fn truth_metric(plan: &BenchPlan) -> (res: Metric)
    ensures
        res == scored_by(*plan),
        !(plan is Graph) ==> res == Metric::Cosine,
{
    match plan {
        BenchPlan::Graph { graph, ks: _ } => graph.metric,
        _ => Metric::Cosine,
    }
}

/// The greatest cutoff, up to which the ground truth is needed.
pub fn largest_cutoff(plan: &BenchPlan) -> (res: usize)
    requires
        plan.wf(),
    ensures
        res == plan.cutoffs().last(),
        forall|i: int| 0 <= i < plan.cutoffs().len() ==> plan.cutoffs()[i] <= res,
{
    match plan {
        BenchPlan::Sweep { info: _, ks, nprobes: _ } => ks[ks.len() - 1],
        BenchPlan::Target { info: _, ks, target: _ } => ks[ks.len() - 1],
        BenchPlan::Graph { graph: _, ks } => ks[ks.len() - 1],
    }
}

/// The measurement whose query is shown with the plan: the first, but of a vector-graph index
/// the one up to the greatest cutoff.
pub open spec fn shown_at(plan: BenchPlan) -> int {
    match plan {
        BenchPlan::Graph { ks, .. } => ks@.len() - 1,
        _ => 0,
    }
}

/// What the query that is shown with the plan is called.
pub open spec fn shown_as(plan: BenchPlan) -> Seq<char> {
    match plan {
        BenchPlan::Sweep { nprobes, .. } => crate::query::nprobe_option(nprobes@[0]),
        BenchPlan::Target { target, .. } => crate::query::target_option(target@),
        BenchPlan::Graph { graph, .. } => crate::metric::metric_label(graph.metric)
            + ", single operating point"@,
    }
}

/// What the query that is shown is called is what it asks for: its option, as it stands in the
/// query, or the metric of the vector-graph index. It is one of the queries that are measured,
/// and of a vector-graph index the one with the greatest cutoff.
#[verifier::rlimit(40)]
pub proof fn law_shown_query_is_measured(plan: BenchPlan, args: BenchArgs, coll: Seq<char>)
    requires
        plan.wf(),
    ensures
        0 <= shown_at(plan) < plan.measurements(),
        !(plan is Graph) ==> crate::text::occurs(
            measurement_text(plan, args, coll, shown_at(plan)),
            "{"@ + shown_as(plan) + "}"@,
        ),
        plan matches BenchPlan::Graph { graph, .. } ==> crate::text::begins_with(
            shown_as(plan),
            match graph.metric {
                Metric::Cosine => "cosine"@,
                Metric::L2 => "l2"@,
            },
        ),
        plan is Graph ==> forall|c: usize| #[trigger]
            plan.cutoffs().contains(c) ==> c <= plan.cutoffs()[shown_at(plan)],
{
    reveal_strlit("{");
    reveal_strlit("}");
    reveal_strlit("}) SORT sim DESC LIMIT ");
    reveal_strlit(") SORT sim DESC LIMIT ");
    reveal_strlit(" LET sim = APPROX_NEAR_COSINE(d.vector, @qp, {");
    reveal_strlit(" LET sim = APPROX_NEAR_COSINE(d.vector, @qp, ");
    assert(" LET sim = APPROX_NEAR_COSINE(d.vector, @qp, {"@
        =~= " LET sim = APPROX_NEAR_COSINE(d.vector, @qp, "@ + "{"@);
    assert("}) SORT sim DESC LIMIT "@ =~= "}"@ + ") SORT sim DESC LIMIT "@);
    let text = measurement_text(plan, args, coll, shown_at(plan));
    let option = "{"@ + shown_as(plan) + "}"@;
    let name = measured_index(plan).0;
    let front = crate::query::indexed_head(coll, name)
        + " LET sim = APPROX_NEAR_COSINE(d.vector, @qp, "@;
    let back = ") SORT sim DESC LIMIT "@ + crate::text::dec(plan.cutoffs().last() as nat)
        + " RETURN {k: d.idx, s: sim}"@;
    match plan {
        BenchPlan::Graph { graph, ks } => {
            crate::text::lemma_pieces(
                crate::metric::metric_label(graph.metric),
                ", single operating point"@,
            );
            assert forall|c: usize| #[trigger] plan.cutoffs().contains(c) implies c
                <= plan.cutoffs()[shown_at(plan)] by {
                let m = choose|m: int| 0 <= m < ks@.len() && ks@[m] == c;
                if m < ks@.len() - 1 {
                    assert(plan.cutoffs()[m] < plan.cutoffs()[ks@.len() - 1]);
                }
            }
        },
        BenchPlan::Sweep { .. } => {
            assert(text =~= front + option + back);
            crate::text::lemma_middle(front, option, back);
        },
        BenchPlan::Target { .. } => {
            assert(text =~= front + option + back);
            crate::text::lemma_middle(front, option, back);
        },
    }
}

/// The measurement whose query is shown with the plan.
pub fn shown_measurement(plan: &BenchPlan) -> (res: usize)
    requires
        plan.wf(),
    ensures
        res < plan.measurements(),
        res == shown_at(*plan),
{
    match plan {
        BenchPlan::Graph { graph: _, ks } => ks.len() - 1,
        _ => 0,
    }
}

/// What the query that is shown with the plan is called.
pub fn shown_label(plan: &BenchPlan) -> (res: String)
    requires
        plan.wf(),
    ensures
        res@ == shown_as(*plan),
{
    match plan {
        BenchPlan::Sweep { info: _, ks: _, nprobes } => {
            let mut out = "nProbe: ".to_owned();
            push_dec(&mut out, nprobes[0]);
            out
        },
        BenchPlan::Target { info: _, ks: _, target } => {
            let mut out = "targetRecall: ".to_owned();
            out.append(target.as_str());
            out
        },
        BenchPlan::Graph { graph, ks: _ } => {
            let mut out = graph.metric.label().to_owned();
            out.append(", single operating point");
            out
        },
    }
}

/// The queries of a sweep are one query but for the nProbe option, which is the nProbe value of
/// the measurement in decimal; so measurements of different values have different queries.
#[verifier::rlimit(40)]
pub proof fn law_sweep_measures_each_value(
    plan: BenchPlan,
    args: BenchArgs,
    coll: Seq<char>,
    i: int,
    j: int,
)
    requires
        plan matches BenchPlan::Sweep { nprobes, .. } && 0 <= i < nprobes@.len() && 0 <= j
            < nprobes@.len(),
    ensures
        plan matches BenchPlan::Sweep { nprobes, .. } && {
            let a = measurement_text(plan, args, coll, i);
            let b = measurement_text(plan, args, coll, j);
            &&& crate::text::same_but(
                a,
                crate::text::dec(nprobes@[i] as nat),
                b,
                crate::text::dec(nprobes@[j] as nat),
                "APPROX_NEAR_COSINE(d.vector, @qp, {nProbe: "@,
                "}) SORT sim DESC LIMIT "@,
            )
            &&& nprobes@[i] != nprobes@[j] ==> a != b
        },
{
    if let BenchPlan::Sweep { info, ks, nprobes } = plan {
        let x = crate::text::dec(nprobes@[i] as nat);
        let y = crate::text::dec(nprobes@[j] as nat);
        let a = measurement_text(plan, args, coll, i);
        let b = measurement_text(plan, args, coll, j);
        let mark = "APPROX_NEAR_COSINE(d.vector, @qp, {nProbe: "@;
        let close = "}) SORT sim DESC LIMIT "@;
        let rest = crate::text::dec(ks@.last() as nat) + " RETURN {k: d.idx, s: sim}"@;
        reveal_strlit("APPROX_NEAR_COSINE(d.vector, @qp, {nProbe: ");
        reveal_strlit(" LET sim = APPROX_NEAR_COSINE(d.vector, @qp, {");
        reveal_strlit("nProbe: ");
        reveal_strlit(" LET sim = ");
        assert(" LET sim = APPROX_NEAR_COSINE(d.vector, @qp, {"@ + "nProbe: "@ =~= " LET sim = "@
            + mark);
        let start = crate::query::indexed_head(coll, info.name@) + " LET sim = "@;
        assert(a =~= (start + mark) + x + (close + rest));
        assert(b =~= (start + mark) + y + (close + rest));
        crate::text::lemma_pieces(start, mark);
        crate::text::lemma_pieces(close, rest);
        crate::text::lemma_same_but(start + mark, x, y, close + rest, mark, close);
        crate::decimal::law_numerals_read_back(nprobes@[i], nprobes@[j]);
    }
}

/// The one query of a target recall names the target as it was given, and no number of probes.
#[verifier::rlimit(40)]
pub proof fn law_target_is_asked_for(plan: BenchPlan, args: BenchArgs, coll: Seq<char>, i: int)
    requires
        plan is Target,
    ensures
        plan matches BenchPlan::Target { target, .. } && crate::text::occurs(
            measurement_text(plan, args, coll, i),
            "APPROX_NEAR_COSINE(d.vector, @qp, {targetRecall: "@ + target@
                + "}) SORT sim DESC LIMIT "@,
        ),
{
    if let BenchPlan::Target { info, ks, target } = plan {
        let text = measurement_text(plan, args, coll, i);
        let mark = "APPROX_NEAR_COSINE(d.vector, @qp, {targetRecall: "@;
        let close = "}) SORT sim DESC LIMIT "@;
        let rest = crate::text::dec(ks@.last() as nat) + " RETURN {k: d.idx, s: sim}"@;
        reveal_strlit("APPROX_NEAR_COSINE(d.vector, @qp, {targetRecall: ");
        reveal_strlit(" LET sim = APPROX_NEAR_COSINE(d.vector, @qp, {");
        reveal_strlit("targetRecall: ");
        reveal_strlit(" LET sim = ");
        assert(" LET sim = APPROX_NEAR_COSINE(d.vector, @qp, {"@ + "targetRecall: "@
            =~= " LET sim = "@ + mark);
        let start = crate::query::indexed_head(coll, info.name@) + " LET sim = "@;
        assert(text =~= start + (mark + target@ + close) + rest);
        crate::text::lemma_middle(start, mark + target@ + close, rest);
    }
}

/// Every measurement asks the index under test, and for enough: a measurement of an IVF index
/// takes as many rows as the greatest cutoff, that of a vector-graph index as many as its own,
/// so that its measurements with different cutoffs have different queries.
#[verifier::rlimit(40)]
pub proof fn law_measurements_reach_the_cutoffs(
    plan: BenchPlan,
    args: BenchArgs,
    coll: Seq<char>,
    i: int,
    j: int,
)
    requires
        plan.wf(),
        0 <= i < plan.measurements(),
        0 <= j < plan.measurements(),
    ensures
        ({
            let text = measurement_text(plan, args, coll, i);
            let name = match plan {
                BenchPlan::Sweep { info, .. } => info.name@,
                BenchPlan::Target { info, .. } => info.name@,
                BenchPlan::Graph { graph, .. } => graph.name@,
            };
            &&& crate::text::begins_with(
                text,
                "FOR d IN "@ + coll + " OPTIONS {indexHint: \""@ + name
                    + "\", forceIndexHint: true} "@,
            )
            &&& !(plan is Graph) ==> exists|k: usize| #[trigger]
                plan.cutoffs().contains(k) && (forall|c: usize| #[trigger]
                    plan.cutoffs().contains(c) ==> c <= k) && crate::text::ends_in(
                    text,
                    "}) SORT sim DESC LIMIT "@ + crate::text::dec(k as nat)
                        + " RETURN {k: d.idx, s: sim}"@,
                )
            &&& plan is Graph ==> crate::text::ends_in(
                text,
                " LIMIT "@ + crate::text::dec(plan.cutoffs()[i] as nat)
                    + " RETURN {k: d.idx, s: s}"@,
            )
            &&& plan is Graph ==> crate::text::same_but(
                text,
                crate::text::dec(plan.cutoffs()[i] as nat),
                measurement_text(plan, args, coll, j),
                crate::text::dec(plan.cutoffs()[j] as nat),
                " LIMIT "@,
                " RETURN {k: d.idx, s: s}"@,
            )
            &&& plan is Graph && i != j ==> text != measurement_text(plan, args, coll, j)
        }),
{
    let text = measurement_text(plan, args, coll, i);
    let ks = plan.cutoffs();
    let k = ks.last();
    assert(ks.contains(k)) by {
        assert(ks[ks.len() - 1] == k);
    }
    assert forall|c: usize| #[trigger] ks.contains(c) implies c <= k by {
        let m = choose|m: int| 0 <= m < ks.len() && ks[m] == c;
        assert(m < ks.len() - 1 ==> ks[m] < ks[ks.len() - 1]);
    }
    match plan {
        BenchPlan::Graph { graph, ks: _ } => {
            let options = crate::query::graph_options(args.search_list_size, args.rerank);
            crate::query::law_graph_query_is_of_its_metric(
                coll,
                graph.name@,
                graph.metric,
                ks[i] as nat,
                options,
            );
            let head = crate::query::indexed_head(coll, graph.name@) + " LET s = "@
                + crate::metric::approx_function(graph.metric) + "(d.vector, @qp"@ + options
                + ") SORT s "@ + crate::metric::direction(graph.metric);
            let last = " RETURN {k: d.idx, s: s}"@;
            let x = crate::text::dec(ks[i] as nat);
            let y = crate::text::dec(ks[j] as nat);
            assert(text =~= head + (" LIMIT "@ + x + last));
            crate::text::lemma_pieces(head, " LIMIT "@ + x + last);
            assert(text =~= (head + " LIMIT "@) + x + last);
            assert(measurement_text(plan, args, coll, j) =~= (head + " LIMIT "@) + y + last);
            crate::text::lemma_pieces(head, " LIMIT "@);
            crate::text::lemma_pieces(last, Seq::empty());
            assert(last + Seq::<char>::empty() =~= last);
            crate::text::lemma_same_but(head + " LIMIT "@, x, y, last, " LIMIT "@, last);
            crate::decimal::law_numerals_read_back(ks[i] as u64, ks[j] as u64);
            if i < j {
                assert(ks[i] < ks[j]);
            } else if j < i {
                assert(ks[j] < ks[i]);
            }
        },
        BenchPlan::Sweep { info, nprobes, .. } => {
            lemma_ivf_end(coll, info.name@, crate::query::nprobe_option(nprobes@[i]), k as nat);
        },
        BenchPlan::Target { info, target, .. } => {
            lemma_ivf_end(coll, info.name@, crate::query::target_option(target@), k as nat);
        },
    }
}

/// A measurement of a vector-graph index uses the search-list size that was asked for, and asks
/// for reranking exactly where that was.
#[verifier::rlimit(40)]
pub proof fn law_graph_measurements_use_the_options(
    plan: BenchPlan,
    args: BenchArgs,
    coll: Seq<char>,
    i: int,
)
    requires
        plan is Graph,
    ensures
        ({
            let text = measurement_text(plan, args, coll, i);
            &&& args.search_list_size matches Some(n) ==> crate::text::occurs(
                text,
                "(d.vector, @qp, {searchListSize: "@ + crate::text::dec(n as nat) + (
                if args.rerank {
                    ", rerank: true}) SORT s "@
                } else {
                    "}) SORT s "@
                }),
            )
            &&& args.search_list_size is None ==> crate::text::occurs(
                text,
                if args.rerank {
                    "(d.vector, @qp, {rerank: true}) SORT s "@
                } else {
                    "(d.vector, @qp) SORT s "@
                },
            )
        }),
{
    if let BenchPlan::Graph { graph, ks } = plan {
        let options = crate::query::graph_options(args.search_list_size, args.rerank);
        let call = "(d.vector, @qp"@ + options + ") SORT s "@;
        let front = crate::query::indexed_head(coll, graph.name@) + " LET s = "@
            + crate::metric::approx_function(graph.metric);
        let back = crate::metric::direction(graph.metric) + " LIMIT "@ + crate::text::dec(
            ks@[i] as nat,
        ) + " RETURN {k: d.idx, s: s}"@;
        assert(measurement_text(plan, args, coll, i) =~= front + call + back);
        crate::text::lemma_middle(front, call, back);
        lemma_call_with_options(args.search_list_size, args.rerank);
    }
}

proof fn lemma_call_with_options(size: Option<usize>, rerank: bool)
    ensures
        "(d.vector, @qp"@ + crate::query::graph_options(size, rerank) + ") SORT s "@ == (
        match size {
            Some(n) => "(d.vector, @qp, {searchListSize: "@ + crate::text::dec(n as nat) + (
            if rerank {
                ", rerank: true}) SORT s "@
            } else {
                "}) SORT s "@
            }),
            None => if rerank {
                "(d.vector, @qp, {rerank: true}) SORT s "@
            } else {
                "(d.vector, @qp) SORT s "@
            },
        }),
{
    reveal_strlit("(d.vector, @qp");
    reveal_strlit(") SORT s ");
    reveal_strlit("}) SORT s ");
    reveal_strlit(", rerank: true}) SORT s ");
    reveal_strlit("(d.vector, @qp) SORT s ");
    reveal_strlit("(d.vector, @qp, {rerank: true}) SORT s ");
    reveal_strlit("(d.vector, @qp, {searchListSize: ");
    reveal_strlit(", {searchListSize: ");
    reveal_strlit(", rerank: true}");
    reveal_strlit(", {rerank: true}");
    reveal_strlit("}");
    reveal_strlit("");
    let call = "(d.vector, @qp"@ + crate::query::graph_options(size, rerank) + ") SORT s "@;
    match size {
        Some(n) => {
            let end = if rerank {
                ", rerank: true}) SORT s "@
            } else {
                "}) SORT s "@
            };
            assert(call =~= "(d.vector, @qp, {searchListSize: "@ + crate::text::dec(n as nat)
                + end);
        },
        None => {
            if rerank {
                assert(call =~= "(d.vector, @qp, {rerank: true}) SORT s "@);
            } else {
                assert(call =~= "(d.vector, @qp) SORT s "@);
            }
        },
    }
}

proof fn lemma_ivf_end(coll: Seq<char>, name: Seq<char>, option: Seq<char>, k: nat)
    ensures
        crate::text::begins_with(
            crate::query::ivf_text(coll, name, option, k),
            "FOR d IN "@ + coll + " OPTIONS {indexHint: \""@ + name
                + "\", forceIndexHint: true} "@,
        ),
        crate::text::ends_in(
            crate::query::ivf_text(coll, name, option, k),
            "}) SORT sim DESC LIMIT "@ + crate::text::dec(k) + " RETURN {k: d.idx, s: sim}"@,
        ),
{
    crate::query::law_ivf_query_holds_its_option(coll, name, option, option, k);
    let head = crate::query::indexed_head(coll, name)
        + " LET sim = APPROX_NEAR_COSINE(d.vector, @qp, {"@ + option;
    let end = "}) SORT sim DESC LIMIT "@ + crate::text::dec(k) + " RETURN {k: d.idx, s: sim}"@;
    assert(crate::query::ivf_text(coll, name, option, k) =~= head + end);
    crate::text::lemma_pieces(head, end);
}

/// The ground truth is scored as the measured queries score: every query of the plan calls the
/// approximate function of the metric of the truth.
#[verifier::rlimit(40)]
pub proof fn law_truth_is_of_the_measured_metric(
    plan: BenchPlan,
    args: BenchArgs,
    coll: Seq<char>,
    i: int,
)
    requires
        plan.wf(),
        0 <= i < plan.measurements(),
    ensures
        crate::text::occurs(
            measurement_text(plan, args, coll, i),
            match scored_by(plan) {
                Metric::Cosine => " = APPROX_NEAR_COSINE(d.vector, @qp"@,
                Metric::L2 => " = APPROX_NEAR_L2(d.vector, @qp"@,
            },
        ),
{
    reveal_strlit(" = APPROX_NEAR_COSINE(d.vector, @qp");
    reveal_strlit(" = APPROX_NEAR_L2(d.vector, @qp");
    reveal_strlit("APPROX_NEAR_COSINE");
    reveal_strlit("APPROX_NEAR_L2");
    reveal_strlit("(d.vector, @qp");
    reveal_strlit(" LET s = ");
    reveal_strlit(" LET s");
    reveal_strlit(" LET sim");
    reveal_strlit(", {");
    reveal_strlit(" LET sim = APPROX_NEAR_COSINE(d.vector, @qp, {");
    let call = match scored_by(plan) {
        Metric::Cosine => " = APPROX_NEAR_COSINE(d.vector, @qp"@,
        Metric::L2 => " = APPROX_NEAR_L2(d.vector, @qp"@,
    };
    let text = measurement_text(plan, args, coll, i);
    match plan {
        BenchPlan::Graph { graph, ks } => {
            let options = crate::query::graph_options(args.search_list_size, args.rerank);
            let rest = options + ") SORT s "@ + crate::metric::direction(graph.metric)
                + " LIMIT "@ + crate::text::dec(ks@[i] as nat) + " RETURN {k: d.idx, s: s}"@;
            let head = crate::query::indexed_head(coll, graph.name@) + " LET s"@;
            assert(" LET s = "@ + crate::metric::approx_function(graph.metric) + "(d.vector, @qp"@
                =~= " LET s"@ + call);
            assert(text =~= head + call + rest);
            crate::text::lemma_middle(head, call, rest);
        },
        BenchPlan::Sweep { info, ks, nprobes } => {
            let rest = ", {"@ + crate::query::nprobe_option(nprobes@[i])
                + "}) SORT sim DESC LIMIT "@ + crate::text::dec(ks@.last() as nat)
                + " RETURN {k: d.idx, s: sim}"@;
            let head = crate::query::indexed_head(coll, info.name@) + " LET sim"@;
            assert(" LET sim = APPROX_NEAR_COSINE(d.vector, @qp, {"@ =~= " LET sim"@ + call
                + ", {"@);
            assert(text =~= head + call + rest);
            crate::text::lemma_middle(head, call, rest);
        },
        BenchPlan::Target { info, ks, target } => {
            let rest = ", {"@ + crate::query::target_option(target@)
                + "}) SORT sim DESC LIMIT "@ + crate::text::dec(ks@.last() as nat)
                + " RETURN {k: d.idx, s: sim}"@;
            let head = crate::query::indexed_head(coll, info.name@) + " LET sim"@;
            assert(" LET sim = APPROX_NEAR_COSINE(d.vector, @qp, {"@ =~= " LET sim"@ + call
                + ", {"@);
            assert(text =~= head + call + rest);
            crate::text::lemma_middle(head, call, rest);
        },
    }
}

/// A sweep is clamped: no nProbe value exceeds nLists; every value that was asked for and does
/// not exceed it is measured, and where one exceeds it nLists itself is. The values ascend, so
/// none is measured twice, and none is measured that was not asked for or nLists.
pub proof fn law_sweep_is_clamped(list: Seq<u64>, limit: u64, out: Seq<u64>)
    requires
        is_sweep(list, limit, out),
    ensures
        forall|i: int| 0 <= i < out.len() ==> #[trigger] out[i] <= limit,
        forall|i: int|
            0 <= i < list.len() && list[i] <= limit ==> out.contains(#[trigger] list[i]),
        forall|i: int|
            0 <= i < list.len() && #[trigger] list[i] > limit ==> out.contains(limit),
        forall|i: int|
            0 <= i < out.len() ==> list.contains(#[trigger] out[i]) || out[i] == limit,
        forall|i: int, j: int| 0 <= i < j < out.len() ==> out[i] < out[j],
{
    assert forall|i: int| 0 <= i < out.len() implies #[trigger] out[i] <= limit && (list.contains(
        out[i],
    ) || out[i] == limit) by {
        assert(out.contains(out[i]));
        let k = choose|k: int| 0 <= k < list.len() && out[i] == held_at(#[trigger] list[k], limit);
        assert(list.contains(list[k]));
    }
    assert forall|i: int| 0 <= i < list.len() implies out.contains(
        held_at(#[trigger] list[i], limit),
    ) by {
    }
}

} // verus!
