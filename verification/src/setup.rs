//! Building a collection and its vector index.

use crate::args::IndexType;
use crate::json::{Json, JsonView};
use crate::plan::{SetupPlan, DEFAULT_RANDOM_NDOCS};
use crate::query::vector_value;
use crate::text::{push_dec, same_text};
use vstd::prelude::*;
use vstd::string::*;

verus! {

// ---------------------------------------------------------------------------
// What is decided before anything is done
// ---------------------------------------------------------------------------

/// Why no setup can be planned.
pub enum SetupError {
    /// The vector-graph index does not take the dot metric.
    GraphWithDot,
    /// A vector dataset does not have two dimensions.
    NotAMatrix { dataset: &'static str, rank: usize },
    /// A file has no vector dataset.
    NoVectors,
    /// The index was not ready in time.
    NotReady { name: String, timeout_sec: u64 },
    /// A reply that should list the indexes does not.
    NoListing,
}

/// What the user is told.
pub open spec fn setup_message(e: SetupError) -> Seq<char> {
    match e {
        SetupError::GraphWithDot =>
        "the vector-graph index supports only cosine or l2 metrics, not dot"@,
        SetupError::NotAMatrix { dataset, rank } => "dataset '"@ + dataset@ + "' is "@
            + crate::text::dec(rank as nat) + "D, expected 2D (rows × dim)"@,
        SetupError::NoVectors =>
        "HDF5 file has none of the expected vector datasets (train, vectors); provide a 2D float32 dataset under one of those names"@,
        SetupError::NotReady { name, timeout_sec } => "vector index '"@ + name@
            + "' not ready within "@ + crate::text::dec(timeout_sec as nat) + "s"@,
        SetupError::NoListing => "indexes array missing"@,
    }
}

impl SetupError {
    /// What the user is told.
    pub fn message(&self) -> (res: String)
        ensures
            res@ == setup_message(*self),
    {
        match self {
            SetupError::GraphWithDot =>
                "the vector-graph index supports only cosine or l2 metrics, not dot".to_owned(),
            SetupError::NotAMatrix { dataset, rank } => {
                let mut out = "dataset '".to_owned();
                out.append(dataset);
                out.append("' is ");
                push_dec(&mut out, *rank as u64);
                out.append("D, expected 2D (rows × dim)");
                out
            },
            SetupError::NoVectors =>
                "HDF5 file has none of the expected vector datasets (train, vectors); provide a 2D float32 dataset under one of those names".to_owned(),
            SetupError::NotReady { name, timeout_sec } => {
                let mut out = "vector index '".to_owned();
                out.append(name.as_str());
                out.append("' not ready within ");
                push_dec(&mut out, *timeout_sec);
                out.append("s");
                out
            },
            SetupError::NoListing => "indexes array missing".to_owned(),
        }
    }
}

/// The index type takes the metric.
pub open spec fn takes_metric(index_type: IndexType, metric: Seq<char>) -> bool {
    index_type == IndexType::VectorGraph ==> metric != "dot"@
}

/// An IVF index takes every metric. A vector-graph index takes those that a benchmark of one can
/// measure, and no other.
pub proof fn law_graph_takes_what_can_be_measured(word: Seq<char>)
    requires
        crate::metric::metric_of_word(word) == Some(word),
    ensures
        takes_metric(IndexType::Ivf, word),
        takes_metric(IndexType::VectorGraph, word) <==> exists|m: crate::metric::Metric|
            word == #[trigger] crate::metric::metric_label(m),
{
    crate::metric::law_metrics_are_three(word, word);
    reveal_strlit("cosine");
    reveal_strlit("l2");
    reveal_strlit("dot");
    assert("cosine"@.len() == 6 && "l2"@.len() == 2 && "dot"@.len() == 3);
    if word == "cosine"@ {
        assert(word == crate::metric::metric_label(crate::metric::Metric::Cosine));
    }
    if word == "l2"@ {
        assert(word == crate::metric::metric_label(crate::metric::Metric::L2));
    }
}

/// Whether the index type takes the metric.
pub fn check_metric(index_type: IndexType, metric: &str) -> (res: Result<(), SetupError>)
    ensures
        res is Ok <==> takes_metric(index_type, metric@),
        res is Err <==> index_type == IndexType::VectorGraph && metric@ == "dot"@,
        res matches Err(e) ==> e is GraphWithDot,
{
    match index_type {
        IndexType::VectorGraph => if same_text(metric, "dot") {
            Err(SetupError::GraphWithDot)
        } else {
            Ok(())
        },
        IndexType::Ivf => Ok(()),
    }
}

/// Calls `rand::random` for a seed: any 64-bit number.
#[verifier::external_body]
fn fresh_seed() -> u64 {
    rand::random()
}

/// The RNG seed of a random run: the one given, else a fresh one.
pub fn resolve_seed(seed: Option<u64>) -> (res: u64)
    ensures
        seed matches Some(s) ==> res == s,
{
    match seed {
        Some(s) => s,
        None => fresh_seed(),
    }
}

/// A 2D vector dataset of a file.
#[derive(Copy, Clone)]
pub struct VectorDataset {
    pub name: &'static str,
    pub rows: usize,
    pub dim: usize,
}

/// What the user is told before rows are read.
pub open spec fn reading_text(d: VectorDataset, path: Seq<char>, n: usize) -> Seq<char> {
    "Reading HDF5 file "@ + path + " (dataset '"@ + d.name@ + "')...\n  source: "@
        + crate::text::dec(d.rows as nat) + " × "@ + crate::text::dec(d.dim as nat)
        + " float32; will insert "@ + crate::text::dec(n as nat) + " rows\n"@
}

/// The vector dataset of a file: `train`, else `vectors`, each given by its shape where the
/// file has it. It must have two dimensions, rows and components.
pub fn open_vector_dataset(train: Option<&[usize]>, vectors: Option<&[usize]>) -> (res: Result<
    VectorDataset,
    SetupError,
>)
    ensures
        match (train, vectors) {
            (None, None) => res matches Err(SetupError::NoVectors),
            (Some(shape), _) => is_matrix("train"@, shape@, res),
            (None, Some(shape)) => is_matrix("vectors"@, shape@, res),
        },
        is_opened(crate::truth::opt_shape(train), crate::truth::opt_shape(vectors), res),
{
    match train {
        Some(shape) => matrix("train", shape),
        None => match vectors {
            Some(shape) => matrix("vectors", shape),
            None => Err(SetupError::NoVectors),
        },
    }
}

/// `res` is the matrix that a shape describes, or the error where it describes none.
pub open spec fn is_matrix(
    name: Seq<char>,
    shape: Seq<usize>,
    res: Result<VectorDataset, SetupError>,
) -> bool {
    if shape.len() == 2 {
        res matches Ok(d) && d.name@ == name && d.rows == shape[0] && d.dim == shape[1]
    } else {
        res matches Err(SetupError::NotAMatrix { dataset: n, rank }) && n@ == name && rank
            == shape.len()
    }
}

/// `res` is the vector dataset of a file, or the error where it has none that can be used.
pub open spec fn is_opened(
    train: Option<Seq<usize>>,
    vectors: Option<Seq<usize>>,
    res: Result<VectorDataset, SetupError>,
) -> bool {
    match train {
        Some(shape) => is_matrix("train"@, shape, res),
        None => match vectors {
            Some(shape) => is_matrix("vectors"@, shape, res),
            None => res matches Err(SetupError::NoVectors),
        },
    }
}

/// The dataset `train` is taken wherever the file has it, even where it cannot be used; `vectors`
/// only where it does not; and without either there is nothing to take.
pub proof fn law_train_comes_first(
    train: Option<Seq<usize>>,
    vectors: Option<Seq<usize>>,
    res: Result<VectorDataset, SetupError>,
)
    requires
        is_opened(train, vectors, res),
    ensures
        res matches Ok(d) ==> (d.name@ == "train"@ <==> train is Some) && (d.name@ == "vectors"@
            <==> train is None),
        res matches Ok(d) ==> (train is Some ==> train == Some(seq![d.rows, d.dim])) && (
        train is None ==> vectors == Some(seq![d.rows, d.dim])),
        (res matches Err(SetupError::NoVectors)) <==> train is None && vectors is None,
        res is Ok <==> (match train {
            Some(shape) => shape.len() == 2,
            None => vectors matches Some(shape) && shape.len() == 2,
        }),
{
    reveal_strlit("train");
    reveal_strlit("vectors");
    assert("train"@.len() != "vectors"@.len());
    match train {
        Some(shape) => {
            law_vectors_are_a_matrix("train"@, shape, res);
        },
        None => {
            if let Some(shape) = vectors {
                law_vectors_are_a_matrix("vectors"@, shape, res);
            }
        },
    }
}

/// A vector dataset is a matrix, its rows the vectors and its columns the components; a shape of
/// another rank is refused with that rank.
pub proof fn law_vectors_are_a_matrix(
    name: Seq<char>,
    shape: Seq<usize>,
    res: Result<VectorDataset, SetupError>,
)
    requires
        is_matrix(name, shape, res),
    ensures
        res matches Ok(d) ==> d.name@ == name && shape == seq![d.rows, d.dim],
        res is Ok <==> shape.len() == 2,
        res matches Err(e) ==> (e matches SetupError::NotAMatrix { dataset, rank } && dataset@
            == name && rank == shape.len() && rank != 2),
{
    if let Ok(d) = res {
        assert(shape =~= seq![d.rows, d.dim]);
    }
}

/// The matrix that a shape describes.
fn matrix(name: &'static str, shape: &[usize]) -> (res: Result<VectorDataset, SetupError>)
    ensures
        is_matrix(name@, shape@, res),
{
    if shape.len() == 2 {
        Ok(VectorDataset { name, rows: shape[0], dim: shape[1] })
    } else {
        Err(SetupError::NotAMatrix { dataset: name, rank: shape.len() })
    }
}

/// The number of rows to insert of a file with `rows` rows.
pub open spec fn held_rows(rows: usize, ndocs: Option<usize>) -> usize {
    match ndocs {
        Some(cap) => if cap < rows {
            cap
        } else {
            rows
        },
        None => rows,
    }
}

/// No more rows are inserted than there are, nor than were asked for; and as many as that
/// allows. Without a number all are.
pub proof fn law_rows_are_held(rows: usize, cap: usize)
    ensures
        held_rows(rows, None) == rows,
        held_rows(rows, Some(cap)) <= rows,
        held_rows(rows, Some(cap)) <= cap,
        held_rows(rows, Some(cap)) == rows || held_rows(rows, Some(cap)) == cap,
{
}

impl VectorDataset {
    /// The number of rows to insert: all of them, or `ndocs` where that is fewer.
    pub fn rows_to_insert(&self, ndocs: Option<usize>) -> (res: usize)
        ensures
            res == held_rows(self.rows, ndocs),
    {
        match ndocs {
            Some(cap) => if cap < self.rows {
                cap
            } else {
                self.rows
            },
            None => self.rows,
        }
    }

    /// What the user is told before `n` rows are read from the file at `path`.
    pub fn reading_lines(&self, path: &str, n: usize) -> (res: String)
        ensures
            res@ == reading_text(*self, path@, n),
    {
        let ghost d = *self;
        let mut out = "Reading HDF5 file ".to_owned();
        out.append(path);
        out.append(" (dataset '");
        out.append(self.name);
        out.append("')...\n  source: ");
        push_dec(&mut out, self.rows as u64);
        out.append(" × ");
        push_dec(&mut out, self.dim as u64);
        out.append(" float32; will insert ");
        push_dec(&mut out, n as u64);
        out.append(" rows\n");
        out
    }
}

/// The number of documents in random mode.
pub open spec fn random_docs(ndocs: Option<usize>) -> usize {
    match ndocs {
        Some(n) => n,
        None => DEFAULT_RANDOM_NDOCS,
    }
}

/// As many random documents are made as the plan shows: the number that was asked for, and where
/// none was the default.
pub proof fn law_as_many_random_docs_as_planned(plan: SetupPlan)
    requires
        plan.source is Random,
    ensures
        crate::plan::count_text(plan) == crate::text::dec(random_docs(plan.ndocs) as nat)
            + " docs"@,
        plan.ndocs matches Some(n) ==> random_docs(plan.ndocs) == n,
        plan.ndocs is None ==> random_docs(plan.ndocs) == 200_000,
{
}

/// The number of documents in random mode.
pub fn random_count(ndocs: Option<usize>) -> (res: usize)
    ensures
        res == random_docs(ndocs),
{
    match ndocs {
        Some(n) => n,
        None => DEFAULT_RANDOM_NDOCS,
    }
}

// ---------------------------------------------------------------------------
// Documents
// ---------------------------------------------------------------------------

/// The seed of the random vector of document `i`, modulo 2^64.
pub open spec fn seed_of(base_seed: u64, i: usize) -> int {
    if base_seed + i <= u64::MAX {
        base_seed + i
    } else {
        base_seed + i - u64::MAX - 1
    }
}

/// The seed of the random vector of document `i`. It depends on the document alone, not on the
/// batch that it is in.
pub fn document_seed(base_seed: u64, i: usize) -> (res: u64)
    ensures
        res == seed_of(base_seed, i),
{
    base_seed.wrapping_add(i as u64)
}

/// Two documents never share a seed.
pub proof fn law_seeds_differ(base_seed: u64, i: usize, j: usize)
    requires
        i != j,
    ensures
        seed_of(base_seed, i) != seed_of(base_seed, j),
{
}

/// The seeds count up from the base seed, one for each document, and start anew at zero behind
/// the greatest.
pub proof fn law_seeds_count_up(base_seed: u64, i: usize)
    requires
        i < usize::MAX,
    ensures
        seed_of(base_seed, 0) == base_seed,
        seed_of(base_seed, (i + 1) as usize) == (if seed_of(base_seed, i) == u64::MAX {
            0
        } else {
            seed_of(base_seed, i) + 1
        }),
        0 <= seed_of(base_seed, i) <= u64::MAX,
{
}

/// A document: the row number and the vector.
pub open spec fn document(idx: int, vector: Seq<Seq<char>>) -> JsonView {
    JsonView::Object(
        seq![
            ("idx"@, JsonView::Unsigned(idx as u64)),
            ("vector"@, crate::query::vector_json(vector)),
        ],
    )
}

/// The documents of rows from `first` on.
pub open spec fn documents(first: int, vectors: Seq<Vec<String>>) -> JsonView {
    JsonView::Array(
        Seq::new(
            vectors.len(),
            |j: int| document(first + j, crate::text::texts(vectors[j]@)),
        ),
    )
}

/// A document: the row number and the vector.
fn make_document(idx: usize, vector: &Vec<String>) -> (res: Json)
    ensures
        res@ == document(idx as int, crate::text::texts(vector@)),
{
    let value = vector_value(vector);
    let ghost v = value@;
    let entries: Vec<(String, Json)> = vec![
        ("idx".to_owned(), Json::Unsigned(idx as u64)),
        ("vector".to_owned(), value),
    ];
    let res = Json::Object(entries);
    proof {
        crate::json::lemma_view_parts(res);
        assert(crate::json::entry_views(entries@) =~= seq![
            ("idx"@, JsonView::Unsigned(idx as u64)),
            ("vector"@, v),
        ]);
    }
    res
}

/// The documents of a batch that starts at row `row_offset + start`. `idx` is the absolute row
/// number so it matches ground-truth neighbor ids, which reference positions in the source.
pub fn make_batch(row_offset: usize, start: usize, vectors: &Vec<Vec<String>>) -> (res: Json)
    requires
        row_offset + start + vectors@.len() <= usize::MAX,
    ensures
        res@ == documents(row_offset + start, vectors@),
{
    let mut docs: Vec<Json> = Vec::new();
    for j in 0..vectors.len()
        invariant
            row_offset + start + vectors@.len() <= usize::MAX,
            docs@.len() == j,
            forall|k: int|
                0 <= k < j ==> (#[trigger] docs@[k])@ == document(
                    row_offset + start + k,
                    crate::text::texts(vectors@[k]@),
                ),
    {
        docs.push(make_document(row_offset + start + j, &vectors[j]));
    }
    let res = Json::Array(docs);
    proof {
        crate::json::lemma_view_parts(res);
        assert(crate::json::json_views(docs@) =~= documents(
            row_offset + start,
            vectors@,
        )->Array_0);
    }
    res
}

/// The documents of rows from `first` on are as many as the vectors, in their order: each tells
/// its own row, by which the ground truth knows it, and holds its own vector, component by
/// component.
pub proof fn law_documents_tell_their_rows(first: int, vectors: Seq<Vec<String>>, j: int)
    requires
        0 <= first,
        0 <= j < vectors.len(),
        first + vectors.len() <= u64::MAX,
    ensures
        ({
            let all = documents(first, vectors)->Array_0;
            let vector = crate::json::as_array(crate::json::member(all[j], "vector"@));
            &&& all.len() == vectors.len()
            &&& crate::json::as_u64(crate::json::member(all[j], "idx"@)) matches Some(n) && n
                == first + j
            &&& vector is Some && vector->0.len() == vectors[j]@.len()
            &&& forall|c: int|
                0 <= c < vectors[j]@.len() ==> crate::json::as_number(#[trigger] vector->0[c])
                    == Some(vectors[j]@[c]@)
        }),
{
    reveal_strlit("idx");
    reveal_strlit("vector");
    assert("idx"@.len() == 3 && "vector"@.len() == 6);
    let all = documents(first, vectors)->Array_0;
    let texts = crate::text::texts(vectors[j]@);
    assert(all[j] == document(first + j, texts));
    let entries = document(first + j, texts)->Object_0;
    crate::json::lemma_lookup_at(entries, 0);
    crate::json::lemma_lookup_at(entries, 1);
    let value = crate::query::vector_json(texts);
    assert(crate::json::member(all[j], "vector"@) == value);
    assert forall|c: int| 0 <= c < vectors[j]@.len() implies crate::json::as_number(
        #[trigger] value->Array_0[c],
    ) == Some(vectors[j]@[c]@) by {
        assert(texts[c] == vectors[j]@[c]@);
    }
}

/// The documents have their keys in order, so that their text is that of `serde_json`.
pub proof fn law_documents_are_ordered(first: int, vectors: Seq<Vec<String>>)
    ensures
        crate::json::ordered(documents(first, vectors)),
{
    reveal_with_fuel(crate::json::ordered, 2);
    let all = documents(first, vectors)->Array_0;
    assert forall|j: int| 0 <= j < all.len() implies crate::json::ordered(#[trigger] all[j]) by {
        let vector = crate::text::texts(vectors[j]@);
        assert(all[j] == document(first + j, vector));
        lemma_document_ordered(first + j, vector);
    }
}

proof fn lemma_document_ordered(idx: int, vector: Seq<Seq<char>>)
    ensures
        crate::json::ordered(document(idx, vector)),
{
    reveal_with_fuel(crate::json::ordered, 2);
    reveal_strlit("idx");
    reveal_strlit("vector");
    let value = crate::query::vector_json(vector);
    assert forall|i: int| 0 <= i < value->Array_0.len() implies crate::json::ordered(
        #[trigger] value->Array_0[i],
    ) by {
        assert(value->Array_0[i] == JsonView::Float(vector[i]));
    }
    assert(crate::json::ordered(value));
    assert(crate::json::text_before("idx"@, "vector"@));
    let entries = document(idx, vector)->Object_0;
    assert(entries[1].1 == value);
    assert(crate::json::keys_ascend(entries));
}

/// Batching does not change the data: the documents of two adjoining batches are those of one
/// batch.
pub proof fn law_batches_join(first: int, a: Seq<Vec<String>>, b: Seq<Vec<String>>)
    ensures
        documents(first, a + b) == JsonView::Array(
            documents(first, a)->Array_0 + documents(first + a.len(), b)->Array_0,
        ),
{
    assert(documents(first, a + b)->Array_0 =~= documents(first, a)->Array_0 + documents(
        first + a.len(),
        b,
    )->Array_0);
}

/// Reading a file in blocks and inserting each block in batches inserts every row exactly once:
/// a row below `n` lies in one block and there in one batch, a row from `n` on in none.
pub proof fn law_blocks_insert_each_row_once(n: nat, block: nat, batch: nat, row: int)
    requires
        block > 0,
        batch > 0,
        n <= usize::MAX,
    ensures
        0 <= row < n <==> exists|b: int, i: int| inserts(n, block, batch, b, i, row),
        forall|b: int, i: int, c: int, j: int|
            inserts(n, block, batch, b, i, row) && inserts(n, block, batch, c, j, row) ==> b == c
                && i == j,
{
    let blocks = crate::ranges::batches(n, block);
    crate::ranges::law_batches_tile(n, block);
    crate::ranges::law_tiles_hold_each_once(blocks, n, row);
    if 0 <= row < n {
        let b = choose|b: int|
            0 <= b < blocks.len() && crate::ranges::in_range(#[trigger] blocks[b], row);
        let (start, end) = blocks[b];
        let len = (end - start) as nat;
        let parts = crate::ranges::batches(len, batch);
        crate::ranges::law_batches_tile(len, batch);
        crate::ranges::law_tiles_hold_each_once(parts, len, row - start);
        let i = choose|i: int|
            0 <= i < parts.len() && crate::ranges::in_range(#[trigger] parts[i], row - start);
        assert(inserts(n, block, batch, b, i, row));
    }
    assert forall|b: int, i: int, c: int, j: int|
        inserts(n, block, batch, b, i, row) && inserts(n, block, batch, c, j, row) implies b == c
        && i == j by {
        assert(crate::ranges::in_range(blocks[b], row));
        assert(crate::ranges::in_range(blocks[c], row));
        let (start, end) = blocks[b];
        let len = (end - start) as nat;
        crate::ranges::law_batches_tile(len, batch);
        crate::ranges::law_tiles_hold_each_once(
            crate::ranges::batches(len, batch),
            len,
            row - start,
        );
    }
}

/// Batch `i` of block `b` inserts the row.
pub open spec fn inserts(n: nat, block: nat, batch: nat, b: int, i: int, row: int) -> bool {
    let blocks = crate::ranges::batches(n, block);
    &&& 0 <= b < blocks.len()
    &&& crate::ranges::in_range(blocks[b], row)
    &&& {
        let parts = crate::ranges::batches((blocks[b].1 - blocks[b].0) as nat, batch);
        &&& 0 <= i < parts.len()
        &&& crate::ranges::in_range(parts[i], row - blocks[b].0)
    }
}

// ---------------------------------------------------------------------------
// Lines for the user
// ---------------------------------------------------------------------------

/// What the user is told before the index is created.
pub open spec fn creating_text(plan: SetupPlan) -> Seq<char> {
    match plan.index_type {
        IndexType::Ivf => "Creating vector index '"@ + plan.index_name@ + "' (metric="@
            + plan.metric@ + ", dim="@ + crate::text::dec(plan.dim as nat)
            + ", trainingIterations="@ + crate::text::dec(plan.training_iterations as nat) + ", "@
            + crate::plan::summary(plan) + ")..."@,
        IndexType::VectorGraph => "Creating vector-graph index '"@ + plan.index_name@
            + "' (metric="@ + plan.metric@ + ", dim="@ + crate::text::dec(plan.dim as nat) + ", "@
            + crate::plan::summary(plan) + ")..."@,
    }
}

/// What the user is told before the index is created.
pub fn creating_line(plan: &SetupPlan) -> (res: String)
    requires
        plan.params.wf(),
    ensures
        res@ == creating_text(*plan),
{
    match plan.index_type {
        IndexType::Ivf => {
            let mut out = "Creating vector index '".to_owned();
            out.append(plan.index_name.as_str());
            out.append("' (metric=");
            out.append(plan.metric);
            out.append(", dim=");
            push_dec(&mut out, plan.dim as u64);
            out.append(", trainingIterations=");
            push_dec(&mut out, plan.training_iterations as u64);
            out.append(", ");
            out.append(plan.params_summary().as_str());
            out.append(")...");
            out
        },
        IndexType::VectorGraph => {
            let mut out = "Creating vector-graph index '".to_owned();
            out.append(plan.index_name.as_str());
            out.append("' (metric=");
            out.append(plan.metric);
            out.append(", dim=");
            push_dec(&mut out, plan.dim as u64);
            out.append(", ");
            out.append(plan.params_summary().as_str());
            out.append(")...");
            out
        },
    }
}

/// What the user is told when the index is there, `secs` seconds later.
pub fn created_line(index_type: IndexType, secs: &str) -> (res: String)
    ensures
        res@ == (match index_type {
            IndexType::Ivf => "Index trained and ready in "@,
            IndexType::VectorGraph => "Empty index created in "@,
        }) + secs@ + "s."@,
{
    let mut out = match index_type {
        IndexType::Ivf => "Index trained and ready in ".to_owned(),
        IndexType::VectorGraph => "Empty index created in ".to_owned(),
    };
    out.append(secs);
    out.append("s.");
    out
}

/// The times of a setup, in seconds. For the graph index the indexing cost is inside the
/// ingest time; its build time is just empty-index setup.
pub open spec fn timing_text(
    index_type: IndexType,
    ingest: Seq<char>,
    build: Seq<char>,
    total: Seq<char>,
) -> Seq<char> {
    match index_type {
        IndexType::Ivf => "Timing: ingest "@ + ingest + "s, index build "@ + build + "s, total "@
            + total + "s."@,
        IndexType::VectorGraph => "Timing: index create "@ + build + "s, ingest + index "@
            + ingest + "s, total "@ + total + "s."@,
    }
}

/// Each time is shown as what it is; the total comes last, and the rest in the order of the
/// steps: an IVF index is built behind the ingest, a vector-graph index is created before it.
pub proof fn law_times_are_told_apart(ingest: Seq<char>, build: Seq<char>, total: Seq<char>)
    ensures
        timing_text(IndexType::Ivf, ingest, build, total) == "Timing: "@ + ("ingest "@ + ingest)
            + "s, "@ + ("index build "@ + build) + "s, "@ + ("total "@ + total) + "s."@,
        timing_text(IndexType::VectorGraph, ingest, build, total) == "Timing: "@ + (
        "index create "@ + build) + "s, "@ + ("ingest + index "@ + ingest) + "s, "@ + ("total "@
            + total) + "s."@,
{
    reveal_strlit("Timing: ");
    reveal_strlit("Timing: ingest ");
    reveal_strlit("ingest ");
    reveal_strlit("s, ");
    reveal_strlit("s, index build ");
    reveal_strlit("index build ");
    reveal_strlit("s, total ");
    reveal_strlit("total ");
    reveal_strlit("Timing: index create ");
    reveal_strlit("index create ");
    reveal_strlit("s, ingest + index ");
    reveal_strlit("ingest + index ");
    assert("Timing: ingest "@ =~= "Timing: "@ + "ingest "@);
    assert("s, index build "@ =~= "s, "@ + "index build "@);
    assert("s, total "@ =~= "s, "@ + "total "@);
    assert("Timing: index create "@ =~= "Timing: "@ + "index create "@);
    assert("s, ingest + index "@ =~= "s, "@ + "ingest + index "@);
    assert(timing_text(IndexType::Ivf, ingest, build, total) =~= "Timing: "@ + ("ingest "@
        + ingest) + "s, "@ + ("index build "@ + build) + "s, "@ + ("total "@ + total) + "s."@);
    assert(timing_text(IndexType::VectorGraph, ingest, build, total) =~= "Timing: "@ + (
    "index create "@ + build) + "s, "@ + ("ingest + index "@ + ingest) + "s, "@ + ("total "@
        + total) + "s."@);
}

/// The times of a setup, in seconds.
pub fn timing_line(index_type: IndexType, ingest: &str, build: &str, total: &str) -> (res: String)
    ensures
        res@ == timing_text(index_type, ingest@, build@, total@),
{
    match index_type {
        IndexType::Ivf => {
            let mut out = "Timing: ingest ".to_owned();
            out.append(ingest);
            out.append("s, index build ");
            out.append(build);
            out.append("s, total ");
            out.append(total);
            out.append("s.");
            out
        },
        IndexType::VectorGraph => {
            let mut out = "Timing: index create ".to_owned();
            out.append(build);
            out.append("s, ingest + index ");
            out.append(ingest);
            out.append("s, total ");
            out.append(total);
            out.append("s.");
            out
        },
    }
}

/// What the user is told at the end of a setup.
pub open spec fn complete_text(
    db: Seq<char>,
    ndocs: nat,
    dim: nat,
    index_type: IndexType,
    ingest: Seq<char>,
    build: Seq<char>,
    total: Seq<char>,
) -> Seq<char> {
    "\nSetup complete. Database '"@ + db + "' is ready ("@ + crate::text::dec(ndocs)
        + " vectors, dim="@ + crate::text::dec(dim) + ").\n"@
        + timing_text(index_type, ingest, build, total) + "\nNext: vrecall bench\n"@
}

/// What the user is told at the end of a setup.
pub fn complete_lines(
    db: &str,
    ndocs: usize,
    dim: usize,
    index_type: IndexType,
    ingest: &str,
    build: &str,
    total: &str,
) -> (res: String)
    ensures
        res@ == complete_text(
            db@,
            ndocs as nat,
            dim as nat,
            index_type,
            ingest@,
            build@,
            total@,
        ),
{
    let mut out = "\nSetup complete. Database '".to_owned();
    out.append(db);
    out.append("' is ready (");
    push_dec(&mut out, ndocs as u64);
    out.append(" vectors, dim=");
    push_dec(&mut out, dim as u64);
    out.append(").\n");
    out.append(timing_line(index_type, ingest, build, total).as_str());
    out.append("\nNext: vrecall bench\n");
    out
}

/// What the user is told at the end of a run that only built the index.
pub fn only_vector_lines(secs: &str) -> (res: String)
    ensures
        res@ == "\nIndex build time: "@ + secs@ + "s.\n"@,
{
    let mut out = "\nIndex build time: ".to_owned();
    out.append(secs);
    out.append("s.\n");
    out
}

/// What the user is told of the database before the collection is recreated.
pub fn database_line(db: &str, exists: bool) -> (res: String)
    ensures
        exists ==> res@ == "Using existing database '"@ + db@ + "'."@,
        !exists ==> res@ == "Creating database '"@ + db@ + "'..."@,
{
    if exists {
        let mut out = "Using existing database '".to_owned();
        out.append(db);
        out.append("'.");
        out
    } else {
        let mut out = "Creating database '".to_owned();
        out.append(db);
        out.append("'...");
        out
    }
}

/// What the user is told when `n` documents were inserted in `secs` seconds, `rate` a second.
pub fn inserted_line(n: usize, random: bool, secs: &str, rate: &str) -> (res: String)
    ensures
        res@ == "Inserted "@ + crate::text::dec(n as nat) + (if random {
            " random docs in "@
        } else {
            " docs in "@
        }) + secs@ + "s ("@ + rate@ + " docs/s)."@,
{
    let mut out = "Inserted ".to_owned();
    push_dec(&mut out, n as u64);
    out.append(
        if random {
            " random docs in "
        } else {
            " docs in "
        },
    );
    out.append(secs);
    out.append("s (");
    out.append(rate);
    out.append(" docs/s).");
    out
}

} // verus!
