//! What the command line asks for.

use crate::text::{chars_of, find_char, slice_text};
use vstd::prelude::*;
use vstd::string::*;

verus! {

/// Which kind of vector index `setup` builds.
#[derive(Copy, Clone, Debug, PartialEq, Eq, Structural)]
pub enum IndexType {
    /// IVF (FAISS) index: trained after ingestion, tuned via nProbe/targetRecall.
    Ivf,
    /// Vamana/DiskANN graph index: created *before* ingestion (no training), a
    /// single fixed operating point (no nProbe/targetRecall). Requires the
    /// dimension to be a multiple of 32 and metric cosine or l2.
    VectorGraph,
}

/// How the approx query measurement is driven.
#[derive(Copy, Clone, Debug, PartialEq, Eq, Structural)]
pub enum BenchMode {
    /// Serial: one query at a time through a single client, so each query's time
    /// is measured with no contention. The reported QPS is just single-client
    /// throughput (1000 / latency).
    Latency,
    /// Concurrent: independent clients issue queries in parallel to saturate the
    /// server. The reported latency is per-query time *under load*.
    Qps,
}

/// The arguments of `setup`.
pub struct SetupArgs {
    /// Vector index kind to build.
    pub index_type: IndexType,
    /// Resolved HDF5 path.
    pub input: Option<String>,
    /// Distance metric for the index: cosine, l2, or dot.
    pub metric: Option<String>,
    /// Dataset to load: the name of an ann-benchmarks dataset or a path to a local HDF5 file.
    pub ann_dataset: Option<String>,
    /// Skip data ingestion and only (re)create the vector index on existing data.
    pub only_vector: bool,
    /// Vector dimension (random mode only).
    pub dim: usize,
    /// Number of documents.
    pub ndocs: Option<usize>,
    /// Index tuning parameters, key and value.
    pub params: Vec<(String, String)>,
    /// Name for the created vector index.
    pub index_name: Option<String>,
    /// Number of shards on the dataset collection.
    pub shards: u64,
    /// Base RNG seed (random mode only).
    pub seed: Option<u64>,
    /// Documents per insert batch.
    pub batch: usize,
    /// Parallel HTTP insert workers.
    pub workers: usize,
    /// How long to wait for the index to reach the ready state, in seconds.
    pub index_timeout_sec: u64,
    /// Skip the plan preview and its confirmation prompt.
    pub no_plan: bool,
}

/// The arguments of `bench`.
pub struct BenchArgs {
    /// Resolved HDF5 path of the ground truth.
    pub gt_file: Option<String>,
    /// Ground-truth dataset: the name of an ann-benchmarks dataset or a path to a local file.
    pub ann_dataset: Option<String>,
    /// HDF5 file holding the query vectors, where they are kept apart from the ground truth.
    pub query_file: Option<String>,
    /// Value added to each ground-truth neighbor id before it is matched against `idx`.
    pub gt_id_offset: i64,
    /// Number of query vectors to use.
    pub queries: usize,
    /// Top-K cutoffs to report.
    pub topk: Vec<usize>,
    /// nProbe values to sweep (clamped to nLists).
    pub nprobes: Vec<u64>,
    /// Target recall in (0, 1], as the decimal text of the number.
    pub target_recall: Option<String>,
    /// How long to wait for autotune, in seconds.
    pub autotune_timeout_sec: u64,
    /// Force a fresh autotune run.
    pub retune: bool,
    /// Parallel workers for the ground-truth pass (collection mode only).
    pub gt_workers: usize,
    /// How to drive the approx query measurement.
    pub mode: BenchMode,
    /// Number of concurrent clients in `Qps` mode.
    pub clients: usize,
    /// Name of the vector index to use.
    pub index: Option<String>,
    /// Search-list size (beam width) for a vector-graph query.
    pub search_list_size: Option<usize>,
    /// Rerank the graph-index candidates by full-precision distance.
    pub rerank: bool,
    /// Skip the plan preview and its confirmation prompt.
    pub no_plan: bool,
    /// Show extra per-query breakdowns in the report.
    pub verbose: bool,
}

/// `res` is the key and the value of a text, which has its first `=` between them, or the error
/// where it has none or nothing before it.
pub open spec fn is_pair_of(s: Seq<char>, res: Result<(String, String), String>) -> bool {
    let i = crate::text::first_at(s, '=', 0);
    match res {
        Ok((key, value)) => {
            &&& 0 < i < s.len()
            &&& key@ == s.take(i)
            &&& value@ == s.skip(i + 1)
        },
        Err(message) => {
            &&& i == 0 || i == s.len()
            &&& message@ == "expected KEY=VALUE, got '"@ + s + "'"@
        },
    }
}

/// Parse a `KEY=VALUE` argument, splitting on the first `=` so values may
/// themselves contain `=`. The key must not be empty. The value is kept as a raw string.
pub fn parse_kv(s: &str) -> (res: Result<(String, String), String>)
    ensures
        is_pair_of(s@, res),
{
    let chars = chars_of(s);
    let i = find_char(&chars, '=');
    if i > 0 && i < chars.len() {
        let key = slice_text(&chars, 0, i);
        let value = slice_text(&chars, i + 1, chars.len());
        assert(key@ =~= s@.take(i as int));
        assert(value@ =~= s@.skip(i + 1));
        Ok((key, value))
    } else {
        let mut message = "expected KEY=VALUE, got '".to_owned();
        message.append(s);
        message.append("'");
        Err(message)
    }
}

/// A key without `=` that is not empty, and any value behind the first `=`, are what
/// `parse_kv` splits `KEY=VALUE` into.
pub proof fn law_kv_splits_at_first_equals(key: Seq<char>, value: Seq<char>)
    requires
        key.len() > 0,
        !key.contains('='),
    ensures
        ({
            let text = key + seq!['='] + value;
            let i = crate::text::first_at(text, '=', 0);
            0 < i < text.len() && text.take(i) == key && text.skip(i + 1) == value
        }),
{
    let text = key + seq!['='] + value;
    lemma_first_at(text, key.len() as int, 0, key);
    assert(text.take(key.len() as int) =~= key);
    assert(text.skip(key.len() as int + 1) =~= value);
}

/// What is given as `KEY=VALUE` comes back as that key and that value, whatever the value holds;
/// a text without `=`, or with nothing before it, is refused.
pub proof fn law_pairs(
    key: Seq<char>,
    value: Seq<char>,
    res: Result<(String, String), String>,
    text: Seq<char>,
    other: Result<(String, String), String>,
)
    requires
        !key.contains('='),
        is_pair_of(key + seq!['='] + value, res),
        is_pair_of(text, other),
    ensures
        key.len() > 0 ==> (res matches Ok((k, v)) && k@ == key && v@ == value),
        key.len() == 0 ==> res is Err,
        !text.contains('=') ==> other is Err,
        other matches Ok((k, v)) ==> text == k@ + seq!['='] + v@ && !k@.contains('=') && k@.len()
            > 0,
{
    let whole = key + seq!['='] + value;
    if key.len() > 0 {
        law_kv_splits_at_first_equals(key, value);
    } else {
        assert(whole[0] == '=');
    }
    let i = crate::text::first_at(text, '=', 0);
    lemma_first_is_first(text, 0);
    if let Ok((k, v)) = other {
        assert(text[i] == '=');
        assert(text =~= k@ + seq!['='] + v@);
        if k@.contains('=') {
            let j = choose|j: int| 0 <= j < k@.len() && k@[j] == '=';
            assert(text[j] == '=');
        }
        assert(text.contains(text[i]));
    }
}

proof fn lemma_first_is_first(text: Seq<char>, from: int)
    requires
        0 <= from <= text.len(),
    ensures
        from <= crate::text::first_at(text, '=', from) <= text.len(),
        crate::text::first_at(text, '=', from) < text.len() ==> text[crate::text::first_at(
            text,
            '=',
            from,
        )] == '=',
        forall|j: int|
            from <= j < crate::text::first_at(text, '=', from) ==> #[trigger] text[j] != '=',
    decreases text.len() - from,
{
    if from < text.len() && text[from] != '=' {
        lemma_first_is_first(text, from + 1);
    }
}

proof fn lemma_first_at(text: Seq<char>, end: int, from: int, key: Seq<char>)
    requires
        0 <= from <= end < text.len(),
        end == key.len(),
        !key.contains('='),
        forall|i: int| 0 <= i < end ==> text[i] == key[i],
        text[end] == '=',
    ensures
        crate::text::first_at(text, '=', from) == end,
    decreases end - from,
{
    if from < end {
        assert(key.contains(key[from]));
        lemma_first_at(text, end, from + 1, key);
    }
}

} // verus!
