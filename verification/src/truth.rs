//! Ground truth: the true neighbors of each query, from a file or from exact queries.

use crate::metric::Metric;
use crate::text::{int_text, push_dec, usize_list_text};
use vstd::prelude::*;
use vstd::string::*;

verus! {

// ---------------------------------------------------------------------------
// What a file must hold
// ---------------------------------------------------------------------------

/// Why a file cannot give the ground truth.
#[allow(inconsistent_fields)]
pub enum TruthError {
    /// The file has no query vectors.
    NoQueries,
    /// The query vectors are not a matrix.
    QueriesNotAMatrix,
    /// The file has no neighbors.
    NoNeighbors { dim: usize, path: String },
    /// The neighbors are not a matrix.
    NeighborsNotAMatrix,
    /// There are not as many rows of neighbors as queries.
    RowMismatch { queries: usize, neighbors: usize },
    /// There are fewer neighbors to a query than asked for.
    TooFewNeighbors { max_k: usize, truth_k: usize },
}

/// What the user is told.
pub open spec fn truth_message(e: TruthError) -> Seq<char> {
    match e {
        TruthError::NoQueries => "none of the datasets [\"test\", \"vectors\"] were found"@,
        TruthError::QueriesNotAMatrix => "query vectors must be 2D (queries × dim)"@,
        TruthError::NoNeighbors { dim, path } => "no 'neighbors' or 'large_"@
            + crate::text::dec(dim as nat) + "/neighbors' dataset in "@ + path@,
        TruthError::NeighborsNotAMatrix => "neighbors must be 2D (queries × k)"@,
        TruthError::RowMismatch { queries, neighbors } => "row count mismatch: queries="@
            + crate::text::dec(queries as nat) + " vs neighbors="@
            + crate::text::dec(neighbors as nat),
        TruthError::TooFewNeighbors { max_k, truth_k } => "--topk asks for top-"@
            + crate::text::dec(max_k as nat) + " but 'neighbors' only has "@
            + crate::text::dec(truth_k as nat) + " per query"@,
    }
}

impl TruthError {
    /// What the user is told.
    pub fn message(&self) -> (res: String)
        ensures
            res@ == truth_message(*self),
    {
        match self {
            TruthError::NoQueries =>
                "none of the datasets [\"test\", \"vectors\"] were found".to_owned(),
            TruthError::QueriesNotAMatrix => "query vectors must be 2D (queries × dim)".to_owned(),
            TruthError::NoNeighbors { dim, path } => {
                let mut out = "no 'neighbors' or 'large_".to_owned();
                push_dec(&mut out, *dim as u64);
                out.append("/neighbors' dataset in ");
                out.append(path.as_str());
                out
            },
            TruthError::NeighborsNotAMatrix => "neighbors must be 2D (queries × k)".to_owned(),
            TruthError::RowMismatch { queries, neighbors } => {
                let mut out = "row count mismatch: queries=".to_owned();
                push_dec(&mut out, *queries as u64);
                out.append(" vs neighbors=");
                push_dec(&mut out, *neighbors as u64);
                out
            },
            TruthError::TooFewNeighbors { max_k, truth_k } => {
                let mut out = "--topk asks for top-".to_owned();
                push_dec(&mut out, *max_k as u64);
                out.append(" but 'neighbors' only has ");
                push_dec(&mut out, *truth_k as u64);
                out.append(" per query");
                out
            },
        }
    }
}

/// `res` is the shape of the query vectors, the rows and the components, where `shape` is that
/// of a matrix; else an error.
pub open spec fn is_query_shape(
    shape: Option<Seq<usize>>,
    res: Result<(usize, usize), TruthError>,
) -> bool {
    match shape {
        None => res matches Err(TruthError::NoQueries),
        Some(s) => if s.len() == 2 {
            res matches Ok(r) && r.0 == s[0] && r.1 == s[1]
        } else {
            res matches Err(TruthError::QueriesNotAMatrix)
        },
    }
}

/// The shape of an optional dataset.
pub open spec fn opt_shape(shape: Option<&[usize]>) -> Option<Seq<usize>> {
    match shape {
        Some(s) => Some(s@),
        None => None,
    }
}

/// The query vectors are those of the dataset `test` wherever the file has it, whatever else it
/// has, and must be a matrix: its rows are the queries and its columns the components.
pub proof fn law_queries_are_a_matrix(
    shape: Option<Seq<usize>>,
    res: Result<(usize, usize), TruthError>,
)
    requires
        is_query_shape(shape, res),
    ensures
        res matches Ok(r) ==> shape == Some(seq![r.0, r.1]),
        res is Err <==> !(shape matches Some(s) && s.len() == 2),
        res matches Err(TruthError::NoQueries) <==> shape is None,
        res matches Err(TruthError::QueriesNotAMatrix) <==> (shape matches Some(s) && s.len()
            != 2),
{
    if let Ok(r) = res {
        assert(shape->0 =~= seq![r.0, r.1]);
    }
}

/// The number and the dimension of the query vectors, whose dataset is `test`, else `vectors`,
/// each given by its shape where the file has it.
pub fn query_shape(test: Option<&[usize]>, vectors: Option<&[usize]>) -> (res: Result<
    (usize, usize),
    TruthError,
>)
    ensures
        match (test, vectors) {
            (Some(s), _) => is_query_shape(Some(s@), res),
            (None, Some(s)) => is_query_shape(Some(s@), res),
            (None, None) => is_query_shape(None, res),
        },
        test is Some ==> is_query_shape(opt_shape(test), res),
        test is None ==> is_query_shape(opt_shape(vectors), res),
{
    let shape = match test {
        Some(s) => s,
        None => match vectors {
            Some(s) => s,
            None => {
                return Err(TruthError::NoQueries);
            },
        },
    };
    if shape.len() == 2 {
        Ok((shape[0], shape[1]))
    } else {
        Err(TruthError::QueriesNotAMatrix)
    }
}

/// Where the neighbors and their scores are in a file.
pub struct TruthLayout {
    pub neighbors: String,
    pub scores: String,
    /// The scores are cosine similarities rather than the distances of ann-benchmarks.
    pub scores_are_cosine: bool,
}

/// The group of the dimension-keyed layout.
pub open spec fn large_group(dim: usize) -> Seq<char> {
    "large_"@ + crate::text::dec(dim as nat)
}

/// A dataset in the dimension-keyed layout.
pub fn large_dataset(dim: usize, name: &str) -> (res: String)
    ensures
        res@ == large_group(dim) + ("/"@ + name@),
{
    let mut out = "large_".to_owned();
    push_dec(&mut out, dim as u64);
    let mut tail = "/".to_owned();
    tail.append(name);
    out.append(tail.as_str());
    out
}

/// `res` is where the ground truth is, or the error where the file has none.
pub open spec fn is_layout(
    dim: usize,
    path: Seq<char>,
    has_top: bool,
    has_large: bool,
    res: Result<TruthLayout, TruthError>,
) -> bool {
    match res {
        Ok(l) => if has_top {
            l.neighbors@ == "neighbors"@ && l.scores@ == "distances"@ && !l.scores_are_cosine
        } else {
            &&& has_large
            &&& l.neighbors@ == large_group(dim) + ("/"@ + "neighbors"@)
            &&& l.scores@ == large_group(dim) + ("/"@ + "scores"@)
            &&& l.scores_are_cosine
        },
        Err(e) => {
            &&& !has_top && !has_large
            &&& e matches TruthError::NoNeighbors { dim: d, path: p } && d == dim && p@ == path
        },
    }
}

/// There is a layout exactly where the file has neighbors. Those at the top level win; their
/// scores are the `distances` beside them. Else neighbors and scores are in one group, that of
/// the dimension, and only there the scores are similarities.
pub proof fn law_layout(
    dim: usize,
    path: Seq<char>,
    has_top: bool,
    has_large: bool,
    res: Result<TruthLayout, TruthError>,
)
    requires
        is_layout(dim, path, has_top, has_large, res),
    ensures
        res is Ok <==> has_top || has_large,
        res matches Ok(l) ==> (l.neighbors@ == "neighbors"@ <==> has_top),
        res matches Ok(l) ==> (l.scores@ == "distances"@ <==> has_top),
        res matches Ok(l) ==> (l.scores_are_cosine <==> !has_top),
        res matches Ok(l) ==> (!has_top ==> l.neighbors@ == "large_"@ + crate::text::dec(
            dim as nat,
        ) + "/neighbors"@ && l.scores@ == "large_"@ + crate::text::dec(dim as nat) + "/scores"@),
{
    reveal_strlit("neighbors");
    reveal_strlit("distances");
    reveal_strlit("scores");
    reveal_strlit("large_");
    reveal_strlit("/");
    reveal_strlit("/neighbors");
    reveal_strlit("/scores");
    assert("/neighbors"@ =~= "/"@ + "neighbors"@);
    assert("/scores"@ =~= "/"@ + "scores"@);
    let group = large_group(dim);
    assert((group + ("/"@ + "neighbors"@))[0] == 'l');
    assert((group + ("/"@ + "scores"@))[0] == 'l');
    assert("neighbors"@[0] == 'n' && "distances"@[0] == 'd');
}

/// Where the ground truth is: `neighbors`/`distances` at the top level (ann-benchmarks, where
/// `distances` are angular = 1 − cos), or the dimension-keyed `large_<dim>/{neighbors,scores}`
/// layout used by large split datasets (where `scores` are cosine similarities, used as-is).
/// `has_top` and `has_large` say which neighbors the file at `path` has.
pub fn truth_layout(dim: usize, path: &str, has_top: bool, has_large: bool) -> (res: Result<
    TruthLayout,
    TruthError,
>)
    ensures
        is_layout(dim, path@, has_top, has_large, res),
{
    if has_top {
        Ok(
            TruthLayout {
                neighbors: "neighbors".to_owned(),
                scores: "distances".to_owned(),
                scores_are_cosine: false,
            },
        )
    } else if has_large {
        Ok(
            TruthLayout {
                neighbors: large_dataset(dim, "neighbors"),
                scores: large_dataset(dim, "scores"),
                scores_are_cosine: true,
            },
        )
    } else {
        Err(TruthError::NoNeighbors { dim, path: path.to_owned() })
    }
}

/// What is read from a file with ground truth.
#[derive(Copy, Clone, Debug, PartialEq, Eq, Structural)]
pub struct TruthPlan {
    /// The queries in the file.
    pub rows: usize,
    /// Their dimension.
    pub dim: usize,
    /// The neighbors of each query in the file.
    pub truth_k: usize,
    /// The neighbors of each query that are used.
    pub max_k: usize,
    /// The queries that are used.
    pub n_queries: usize,
}

/// `res` is what is read, or the error where the neighbors are not those of the queries or are
/// too few.
pub open spec fn is_truth_plan(
    rows: usize,
    dim: usize,
    neighbors: Seq<usize>,
    max_k: usize,
    queries: usize,
    res: Result<TruthPlan, TruthError>,
) -> bool {
    match res {
        Ok(plan) => {
            &&& neighbors.len() == 2
            &&& neighbors[0] == rows
            &&& neighbors[1] >= max_k
            &&& plan.rows == rows
            &&& plan.dim == dim
            &&& plan.truth_k == neighbors[1]
            &&& plan.max_k == max_k
            &&& plan.n_queries == (if queries < rows {
                queries
            } else {
                rows
            })
        },
        Err(TruthError::NeighborsNotAMatrix) => neighbors.len() != 2,
        Err(TruthError::RowMismatch { queries: q, neighbors: n }) => {
            &&& neighbors.len() == 2
            &&& neighbors[0] != rows
            &&& q == rows
            &&& n == neighbors[0]
        },
        Err(TruthError::TooFewNeighbors { max_k: m, truth_k }) => {
            &&& neighbors.len() == 2
            &&& neighbors[0] == rows
            &&& neighbors[1] < max_k
            &&& m == max_k
            &&& truth_k == neighbors[1]
        },
        Err(_) => false,
    }
}

/// The truth is read exactly where there is a row of neighbors for each query, with enough of
/// them for the greatest cutoff; as many queries are used as were asked for, but no more than
/// there are.
pub proof fn law_truth_is_enough(
    rows: usize,
    dim: usize,
    neighbors: Seq<usize>,
    max_k: usize,
    queries: usize,
    res: Result<TruthPlan, TruthError>,
)
    requires
        is_truth_plan(rows, dim, neighbors, max_k, queries, res),
    ensures
        res is Ok <==> neighbors.len() == 2 && neighbors[0] == rows && max_k <= neighbors[1],
        res matches Ok(plan) ==> {
            &&& plan.n_queries <= queries && plan.n_queries <= rows
            &&& plan.n_queries == queries || plan.n_queries == rows
            &&& plan.max_k == max_k && plan.max_k <= plan.truth_k
            &&& neighbors == seq![plan.rows, plan.truth_k]
            &&& plan.dim == dim
        },
        res matches Err(TruthError::TooFewNeighbors { max_k: m, truth_k }) ==> truth_k < m,
        res matches Err(TruthError::RowMismatch { queries: q, neighbors: n }) ==> q != n && q
            == rows,
        neighbors.len() != 2 ==> (res matches Err(TruthError::NeighborsNotAMatrix)),
        neighbors.len() == 2 && neighbors[0] != rows ==> (res matches Err(
            TruthError::RowMismatch { .. },
        )),
{
    if let Ok(plan) = res {
        assert(neighbors =~= seq![plan.rows, plan.truth_k]);
    }
}

/// What is read from a file with `rows` query vectors of dimension `dim` whose neighbors have
/// the shape `neighbors`: the first `queries` queries, or all where there are fewer, with the
/// first `max_k` neighbors of each.
pub fn plan_truth(
    rows: usize,
    dim: usize,
    neighbors: &[usize],
    max_k: usize,
    queries: usize,
) -> (res: Result<TruthPlan, TruthError>)
    ensures
        is_truth_plan(rows, dim, neighbors@, max_k, queries, res),
{
    if neighbors.len() != 2 {
        return Err(TruthError::NeighborsNotAMatrix);
    }
    if rows != neighbors[0] {
        return Err(TruthError::RowMismatch { queries: rows, neighbors: neighbors[0] });
    }
    let truth_k = neighbors[1];
    if truth_k < max_k {
        return Err(TruthError::TooFewNeighbors { max_k, truth_k });
    }
    let n_queries: usize = if queries < rows {
        queries
    } else {
        rows
    };
    Ok(TruthPlan { rows, dim, truth_k, max_k, n_queries })
}

/// What the user is told of what is read.
pub open spec fn truth_plan_text(plan: TruthPlan, query_path: Seq<char>, offset: i64) -> Seq<char> {
    "  queries:   "@ + crate::text::dec(plan.rows as nat) + " × "@
        + crate::text::dec(plan.dim as nat) + " float32 from "@ + query_path + " ("@
        + crate::text::dec(plan.n_queries as nat) + " used)\n  neighbors: "@
        + crate::text::dec(plan.rows as nat) + " × "@ + crate::text::dec(plan.truth_k as nat)
        + " int (top-"@ + crate::text::dec(plan.max_k as nat) + ", id offset "@
        + crate::text::int_dec(offset as int) + ")\n"@
}

impl TruthPlan {
    /// What the user is told of what is read; `offset` is added to each neighbor's id.
    pub fn lines(&self, query_path: &str, offset: i64) -> (res: String)
        ensures
            res@ == truth_plan_text(*self, query_path@, offset),
    {
        let ghost plan = *self;
        let mut out = "  queries:   ".to_owned();
        push_dec(&mut out, self.rows as u64);
        out.append(" × ");
        push_dec(&mut out, self.dim as u64);
        out.append(" float32 from ");
        out.append(query_path);
        out.append(" (");
        push_dec(&mut out, self.n_queries as u64);
        out.append(" used)\n  neighbors: ");
        push_dec(&mut out, self.rows as u64);
        out.append(" × ");
        push_dec(&mut out, self.truth_k as u64);
        out.append(" int (top-");
        push_dec(&mut out, self.max_k as u64);
        out.append(", id offset ");
        out.append(int_text(offset).as_str());
        out.append(")\n");
        out
    }

    /// Whether scores of the shape `shape` belong to the neighbors.
    pub fn scores_fit(&self, shape: &[usize]) -> (res: bool)
        ensures
            res == (shape@ == seq![self.rows, self.truth_k]),
    {
        if shape.len() == 2 && shape[0] == self.rows && shape[1] == self.truth_k {
            assert(shape@ =~= seq![self.rows, self.truth_k]);
            true
        } else {
            false
        }
    }
}

/// What the user is told of scores that are not used: `shape` is that of the dataset where
/// the file has it.
pub fn no_scores_line(name: &str, shape: Option<&[usize]>) -> (res: String)
    ensures
        res@ == (match shape {
            Some(s) => "  "@ + name@ + ": shape mismatch ("@ + crate::text::number_list(
                crate::text::usize_nats(s@),
            ) + "), ignoring"@,
            None => "  "@ + name@ + ": dataset not present; sim-loss will be empty"@,
        }),
{
    let mut out = "  ".to_owned();
    out.append(name);
    match shape {
        Some(s) => {
            out.append(": shape mismatch (");
            out.append(usize_list_text(s).as_str());
            out.append("), ignoring");
        },
        None => {
            out.append(": dataset not present; sim-loss will be empty");
        },
    }
    out
}

/// What a stored score is.
#[derive(Copy, Clone, Debug, PartialEq, Eq, Structural)]
pub enum StoredScore {
    /// The score itself.
    Score,
    /// One less the cosine similarity.
    AngularDistance,
}

/// What a stored score is.
pub open spec fn stored_as(metric: Metric, scores_are_cosine: bool) -> StoredScore {
    if metric == Metric::Cosine && !scores_are_cosine {
        StoredScore::AngularDistance
    } else {
        StoredScore::Score
    }
}

/// Only the distances of the top-level layout are turned into similarities, and only where the
/// metric is a similarity; what is a similarity already, and a distance of a metric of
/// distances, is the score itself.
pub proof fn law_only_angular_distances_are_turned(
    metric: Metric,
    dim: usize,
    path: Seq<char>,
    has_top: bool,
    has_large: bool,
    layout: TruthLayout,
)
    requires
        is_layout(dim, path, has_top, has_large, Ok(layout)),
    ensures
        stored_as(metric, layout.scores_are_cosine) == StoredScore::AngularDistance <==> has_top
            && crate::metric::higher_is_nearer(metric),
        stored_as(metric, layout.scores_are_cosine) == StoredScore::Score <==> !has_top
            || !crate::metric::higher_is_nearer(metric),
{
}

/// What a stored score is. ann-benchmarks stores cosine ground truth as angular distance
/// (1 − cos); the scores of the dimension-keyed layout are cosine similarities already, and
/// Euclidean datasets store true L2 distances.
pub fn stored_score(metric: Metric, scores_are_cosine: bool) -> (res: StoredScore)
    ensures
        res == stored_as(metric, scores_are_cosine),
{
    match metric {
        Metric::Cosine => if scores_are_cosine {
            StoredScore::Score
        } else {
            StoredScore::AngularDistance
        },
        Metric::L2 => StoredScore::Score,
    }
}

// ---------------------------------------------------------------------------
// The truth of a query
// ---------------------------------------------------------------------------

/// The true neighbors of a query, by their ids with `offset` added, each with its score where
/// there are scores.
pub open spec fn truth_rows<S>(
    neighbors: Seq<i64>,
    scores: Option<Seq<S>>,
    offset: i64,
) -> Seq<(i64, Option<S>)> {
    Seq::new(
        neighbors.len(),
        |i: int|
            (
                (neighbors[i] + offset) as i64,
                match scores {
                    Some(s) => Some(s[i]),
                    None => None,
                },
            ),
    )
}

/// The truth keeps the neighbors in their order, each once and with its own score; the offset
/// moves every id by as much, so that an id less the offset is the neighbor of the file. A score
/// is known of all of them or of none.
pub proof fn law_truth_is_the_neighbors<S>(
    neighbors: Seq<i64>,
    scores: Option<Seq<S>>,
    offset: i64,
)
    requires
        forall|i: int|
            0 <= i < neighbors.len() ==> i64::MIN <= #[trigger] neighbors[i] + offset <= i64::MAX,
        scores matches Some(s) ==> s.len() == neighbors.len(),
    ensures
        ({
            let rows = truth_rows(neighbors, scores, offset);
            &&& rows.len() == neighbors.len()
            &&& forall|i: int|
                0 <= i < rows.len() ==> (#[trigger] rows[i]).0 - offset == neighbors[i]
            &&& forall|i: int, j: int|
                0 <= i < rows.len() && 0 <= j < rows.len() ==> (#[trigger] rows[i]).0 - (
                #[trigger] rows[j]).0 == neighbors[i] - neighbors[j]
            &&& scores matches Some(s) ==> rows.map_values(|r: (i64, Option<S>)| r.1->0) == s
            &&& forall|i: int|
                0 <= i < rows.len() ==> ((#[trigger] rows[i]).1 is Some <==> scores is Some)
        }),
{
    let rows = truth_rows(neighbors, scores, offset);
    assert forall|i: int| 0 <= i < rows.len() implies (#[trigger] rows[i]).0 - offset
        == neighbors[i] by {
        assert(i64::MIN <= neighbors[i] + offset <= i64::MAX);
    }
    if let Some(s) = scores {
        assert(rows.map_values(|r: (i64, Option<S>)| r.1->0) =~= s);
    }
}

/// The true neighbors of a query, by their ids with `offset` added, each with its score where
/// there are scores.
pub fn truth_of<S: Copy>(neighbors: &[i64], scores: Option<&[S]>, offset: i64) -> (res: Vec<
    (i64, Option<S>),
>)
    requires
        forall|i: int|
            0 <= i < neighbors@.len() ==> i64::MIN <= #[trigger] neighbors@[i] + offset <= i64::MAX,
        scores matches Some(s) ==> s@.len() == neighbors@.len(),
    ensures
        res@.len() == neighbors@.len(),
        forall|i: int|
            0 <= i < res@.len() ==> (#[trigger] res@[i]).0 == neighbors@[i] + offset && res@[i].1
                == (match scores {
                Some(s) => Some(s@[i]),
                None => None,
            }),
        res@ == truth_rows(
            neighbors@,
            match scores {
                Some(s) => Some(s@),
                None => None,
            },
            offset,
        ),
{
    let mut out: Vec<(i64, Option<S>)> = Vec::new();
    for i in 0..neighbors.len()
        invariant
            forall|k: int|
                0 <= k < neighbors@.len() ==> i64::MIN <= #[trigger] neighbors@[k] + offset
                    <= i64::MAX,
            scores matches Some(s) ==> s@.len() == neighbors@.len(),
            out@.len() == i,
            forall|k: int|
                0 <= k < i ==> (#[trigger] out@[k]).0 == neighbors@[k] + offset && out@[k].1 == (
                match scores {
                    Some(s) => Some(s@[k]),
                    None => None,
                }),
    {
        let score = match scores {
            Some(s) => Some(s[i]),
            None => None,
        };
        assert(i64::MIN <= neighbors@[i as int] + offset <= i64::MAX);
        out.push((neighbors[i] + offset, score));
    }
    assert(out@ =~= truth_rows(
        neighbors@,
        match scores {
            Some(s) => Some(s@),
            None => None,
        },
        offset,
    ));
    out
}

/// The true neighbors of a query, as an exact query returned them, each with its score.
pub fn truth_from_exact<S: Copy>(rows: &[(i64, S)]) -> (res: Vec<(i64, Option<S>)>)
    ensures
        res@ == rows@.map_values(|r: (i64, S)| (r.0, Some(r.1))),
{
    let mut out: Vec<(i64, Option<S>)> = Vec::new();
    for i in 0..rows.len()
        invariant
            out@.len() == i,
            forall|k: int| 0 <= k < i ==> out@[k] == (rows@[k].0, Some(rows@[k].1)),
    {
        out.push((rows[i].0, Some(rows[i].1)));
    }
    assert(out@ =~= rows@.map_values(|r: (i64, S)| (r.0, Some(r.1))));
    out
}

/// What the user is told when the ground truth was read.
pub fn loaded_line(n: usize, max_k: usize) -> (res: String)
    ensures
        res@ == "Loaded "@ + crate::text::dec(n as nat) + " queries with top-"@
            + crate::text::dec(max_k as nat) + " ground truth."@,
{
    let mut out = "Loaded ".to_owned();
    push_dec(&mut out, n as u64);
    out.append(" queries with top-");
    push_dec(&mut out, max_k as u64);
    out.append(" ground truth.");
    out
}

/// What the user is told before the ground truth is computed by exact queries.
pub open spec fn computing_text(max_k: usize, metric: Metric, workers: usize) -> Seq<char> {
    "Computing exact top-"@ + crate::text::dec(max_k as nat) + " ground truth ("@
        + crate::metric::exact_function(metric) + ", "@ + crate::text::dec(workers as nat)
        + " workers)..."@
}

/// The user is told the function by which the exact queries of that metric score.
pub proof fn law_exact_function_is_told(
    max_k: usize,
    metric: Metric,
    workers: usize,
    coll: Seq<char>,
)
    ensures
        ({
            let function = match metric {
                Metric::Cosine => "COSINE_SIMILARITY"@,
                Metric::L2 => "L2_DISTANCE"@,
            };
            &&& crate::text::occurs(
                computing_text(max_k, metric, workers),
                " ground truth ("@ + function + ", "@,
            )
            &&& crate::text::occurs(
                crate::query::exact_text(coll, metric, max_k as nat),
                " LET s = "@ + function + "(d.vector, @qp) SORT s "@,
            )
        }),
{
    let function = match metric {
        Metric::Cosine => "COSINE_SIMILARITY"@,
        Metric::L2 => "L2_DISTANCE"@,
    };
    let a = "Computing exact top-"@ + crate::text::dec(max_k as nat);
    let b = " ground truth ("@ + function + ", "@;
    let c = crate::text::dec(workers as nat) + " workers)..."@;
    assert(computing_text(max_k, metric, workers) =~= a + b + c);
    crate::text::lemma_middle(a, b, c);
    let x = "FOR d IN "@ + coll;
    let y = " LET s = "@ + function + "(d.vector, @qp) SORT s "@;
    let z = crate::metric::direction(metric) + " LIMIT "@ + crate::text::dec(max_k as nat)
        + " RETURN {k: d.idx, s: s}"@;
    assert(crate::query::exact_text(coll, metric, max_k as nat) =~= x + y + z);
    crate::text::lemma_middle(x, y, z);
}

/// What the user is told before the ground truth is computed.
pub fn computing_line(max_k: usize, metric: Metric, workers: usize) -> (res: String)
    ensures
        res@ == computing_text(max_k, metric, workers),
{
    let mut out = "Computing exact top-".to_owned();
    push_dec(&mut out, max_k as u64);
    out.append(" ground truth (");
    out.append(metric.exact_fn());
    out.append(", ");
    push_dec(&mut out, workers as u64);
    out.append(" workers)...");
    out
}

} // verus!
