//! Distance metrics: of an index to be built, and of an index under test.

use crate::args::{IndexType, SetupArgs};
use crate::datasets::is_known;
use crate::text::{ends_with_text, same_text, trim_text};
use vstd::prelude::*;
use vstd::string::*;

verus! {

// ---------------------------------------------------------------------------
// The metric of an index to be built
// ---------------------------------------------------------------------------

/// The metric that the name of a dataset tells.
pub open spec fn inferred(dataset: Seq<char>) -> Seq<char> {
    if crate::text::ends_in(dataset, "-euclidean"@) {
        "l2"@
    } else if crate::text::ends_in(dataset, "-dot"@) {
        "dot"@
    } else {
        "cosine"@
    }
}

/// The metric that the name of a dataset tells; cosine where its ending is not known.
pub fn infer_metric(dataset_name: &str) -> (res: &'static str)
    ensures
        res@ == inferred(dataset_name@),
{
    if ends_with_text(dataset_name, "-euclidean") {
        "l2"
    } else if ends_with_text(dataset_name, "-dot") {
        "dot"
    } else {
        "cosine"
    }
}

/// Every character of the text is in ASCII.
pub open spec fn is_ascii(s: Seq<char>) -> bool {
    forall|i: int| 0 <= i < s.len() ==> (#[trigger] s[i]) <= '\u{7f}'
}

/// What `str::to_lowercase` gives for a text.
pub uninterp spec fn lower_case(s: Seq<char>) -> Seq<char>;

/// Calls `str::to_lowercase`. The result depends on the text alone; of a text in ASCII it is
/// the text with each capital replaced by its small letter.
#[verifier::external_body]
fn to_lower_case(s: &str) -> (res: String)
    ensures
        res@ == lower_case(s@),
        is_ascii(s@) ==> res@ == crate::text::ascii_lower(s@),
{
    s.to_lowercase()
}

/// The metric that a word in small letters stands for.
pub open spec fn metric_of_word(word: Seq<char>) -> Option<Seq<char>> {
    if word == "cosine"@ || word == "angular"@ {
        Some("cosine"@)
    } else if word == "l2"@ || word == "euclidean"@ {
        Some("l2"@)
    } else if word == "dot"@ || word == "ip"@ || word == "inner_product"@ || word
        == "inner-product"@ {
        Some("dot"@)
    } else {
        None
    }
}

/// Why no metric can be told.
pub enum MetricError {
    /// The word is not the name of a metric.
    Unrecognized { word: String },
    /// The vector-graph bench does not support this metric.
    NotForGraph { word: String },
}

impl MetricError {
    /// What the user is told.
    pub fn message(&self) -> (res: String)
        ensures
            res@ == (match *self {
                MetricError::Unrecognized { word } => "unrecognized metric '"@ + word@
                    + "'; use --metric cosine|l2|dot"@,
                MetricError::NotForGraph { word } =>
                "vector-graph bench supports metric cosine or l2, got '"@ + word@ + "'"@,
            }),
    {
        match self {
            MetricError::Unrecognized { word } => {
                let mut out = "unrecognized metric '".to_owned();
                out.append(word.as_str());
                out.append("'; use --metric cosine|l2|dot");
                out
            },
            MetricError::NotForGraph { word } => {
                let mut out = "vector-graph bench supports metric cosine or l2, got '".to_owned();
                out.append(word.as_str());
                out.append("'");
                out
            },
        }
    }
}

/// `res` is the metric of `word`, or the error that names `word` where it is none.
pub open spec fn is_metric_of(word: Seq<char>, res: Result<&'static str, MetricError>) -> bool {
    match metric_of_word(word) {
        Some(m) => res matches Ok(r) && r@ == m,
        None => res matches Err(MetricError::Unrecognized { word: w }) && w@ == word,
    }
}

/// The metric that a word in small letters stands for.
pub fn metric_named(word: &str) -> (res: Result<&'static str, MetricError>)
    ensures
        is_metric_of(word@, res),
{
    if same_text(word, "cosine") || same_text(word, "angular") {
        Ok("cosine")
    } else if same_text(word, "l2") || same_text(word, "euclidean") {
        Ok("l2")
    } else if same_text(word, "dot") || same_text(word, "ip") || same_text(word, "inner_product")
        || same_text(word, "inner-product") {
        Ok("dot")
    } else {
        Err(MetricError::Unrecognized { word: word.to_owned() })
    }
}

/// The metric that a name stands for, whatever white space is around it and whatever its case.
pub fn normalize_metric(raw: &str) -> (res: Result<&'static str, MetricError>)
    ensures
        is_metric_of(lower_case(crate::text::trimmed(raw@)), res),
        is_ascii(crate::text::trimmed(raw@)) ==> is_metric_of(
            crate::text::ascii_lower(crate::text::trimmed(raw@)),
            res,
        ),
{
    let word = to_lower_case(trim_text(raw).as_str());
    metric_named(word.as_str())
}

/// Whether the metric has to be read from the input file: it is not given, the dataset is not
/// a named one, and there is a file.
pub open spec fn file_tells(
    metric: Option<Seq<char>>,
    dataset: Option<Seq<char>>,
    has_input: bool,
) -> bool {
    &&& metric is None
    &&& !(dataset matches Some(name) && crate::datasets::known_names().contains(name))
    &&& has_input
}

/// Whether the metric has to be read from the input file.
pub fn metric_is_in_file(args: &SetupArgs) -> (res: bool)
    ensures
        res == file_tells(
            crate::json::opt_text(args.metric),
            crate::json::opt_text(args.ann_dataset),
            args.input is Some,
        ),
{
    let named = match &args.ann_dataset {
        Some(name) => is_known(name.as_str()),
        None => false,
    };
    args.metric.is_none() && !named && args.input.is_some()
}

/// The word that tells the metric, where a word does: the one given, or the one of the file.
pub open spec fn telling_word(args: SetupArgs, attr: Option<Seq<char>>) -> Option<Seq<char>> {
    if args.metric is Some {
        crate::json::opt_text(args.metric)
    } else if file_tells(
        crate::json::opt_text(args.metric),
        crate::json::opt_text(args.ann_dataset),
        args.input is Some,
    ) {
        attr
    } else {
        None
    }
}

/// The metric where no word tells it: that of the named dataset, else cosine.
pub open spec fn untold_metric(args: SetupArgs) -> Seq<char> {
    match args.ann_dataset {
        Some(name) => if crate::datasets::known_names().contains(name@) {
            inferred(name@)
        } else {
            "cosine"@
        },
        None => "cosine"@,
    }
}

/// The metric of the index to be built: the one given, else that of a named dataset, else that
/// of the input file, whose `metric` attribute is `attr`, else cosine.
pub fn resolve_metric(args: &SetupArgs, attr: Option<&str>) -> (res: Result<
    &'static str,
    MetricError,
>)
    ensures
        match telling_word(*args, crate::json::opt_str(attr)) {
            Some(word) => {
                &&& is_metric_of(lower_case(crate::text::trimmed(word)), res)
                &&& is_ascii(crate::text::trimmed(word)) ==> is_metric_of(
                    crate::text::ascii_lower(crate::text::trimmed(word)),
                    res,
                )
            },
            None => res matches Ok(m) && m@ == untold_metric(*args),
        },
{
    if let Some(m) = &args.metric {
        return normalize_metric(m.as_str());
    }
    if let Some(name) = &args.ann_dataset {
        if is_known(name.as_str()) {
            return Ok(infer_metric(name.as_str()));
        }
    }
    if args.input.is_some() {
        if let Some(raw) = attr {
            return normalize_metric(raw);
        }
    }
    Ok("cosine")
}

/// The index name that a metric gives where none was chosen.
pub open spec fn default_name(index_type: IndexType, metric: Seq<char>) -> Seq<char> {
    match index_type {
        IndexType::VectorGraph => if metric == "l2"@ {
            "vector_graph_l2"@
        } else {
            "vector_graph_cosine"@
        },
        IndexType::Ivf => if metric == "l2"@ {
            "vector_l2"@
        } else if metric == "dot"@ {
            "vector_dot"@
        } else {
            "vector_cosine"@
        },
    }
}

/// The index name that a metric gives where none was chosen.
pub fn default_index_name(index_type: IndexType, metric: &str) -> (res: &'static str)
    ensures
        res@ == default_name(index_type, metric@),
{
    match index_type {
        IndexType::VectorGraph => if same_text(metric, "l2") {
            "vector_graph_l2"
        } else {
            "vector_graph_cosine"
        },
        IndexType::Ivf => if same_text(metric, "l2") {
            "vector_l2"
        } else if same_text(metric, "dot") {
            "vector_dot"
        } else {
            "vector_cosine"
        },
    }
}

/// Whatever tells the metric, it is cosine, l2 or dot, and a metric's own name stands for it.
pub proof fn law_metrics_are_three(word: Seq<char>, dataset: Seq<char>)
    ensures
        metric_of_word(word) matches Some(m) ==> (m == "cosine"@ || m == "l2"@ || m == "dot"@)
            && metric_of_word(m) == Some(m),
        metric_of_word(inferred(dataset)) == Some(inferred(dataset)),
{
    reveal_strlit("cosine");
    reveal_strlit("angular");
    reveal_strlit("l2");
    reveal_strlit("euclidean");
    reveal_strlit("dot");
    assert("l2"@.len() != "cosine"@.len());
    assert("l2"@.len() != "angular"@.len());
    assert("dot"@.len() != "cosine"@.len());
    assert("dot"@.len() != "angular"@.len());
    assert("dot"@.len() != "l2"@.len());
    assert("dot"@.len() != "euclidean"@.len());
}

/// Exactly these words, and no others, stand for a metric.
pub proof fn law_words_of_each_metric(word: Seq<char>)
    ensures
        metric_of_word(word) == Some("cosine"@) <==> seq!["cosine"@, "angular"@].contains(word),
        metric_of_word(word) == Some("l2"@) <==> seq!["l2"@, "euclidean"@].contains(word),
        metric_of_word(word) == Some("dot"@) <==> seq![
            "dot"@,
            "ip"@,
            "inner_product"@,
            "inner-product"@,
        ].contains(word),
        metric_of_word(word) is None <==> !seq![
            "cosine"@,
            "angular"@,
            "l2"@,
            "euclidean"@,
            "dot"@,
            "ip"@,
            "inner_product"@,
            "inner-product"@,
        ].contains(word),
{
    reveal_strlit("cosine");
    reveal_strlit("angular");
    reveal_strlit("l2");
    reveal_strlit("euclidean");
    reveal_strlit("dot");
    reveal_strlit("ip");
    reveal_strlit("inner_product");
    reveal_strlit("inner-product");
    let cosine = seq!["cosine"@, "angular"@];
    let l2 = seq!["l2"@, "euclidean"@];
    let dot = seq!["dot"@, "ip"@, "inner_product"@, "inner-product"@];
    let all = seq![
        "cosine"@,
        "angular"@,
        "l2"@,
        "euclidean"@,
        "dot"@,
        "ip"@,
        "inner_product"@,
        "inner-product"@,
    ];
    assert("l2"@.len() == 2 && "ip"@.len() == 2 && "dot"@.len() == 3 && "cosine"@.len() == 6);
    assert("l2"@[0] == 'l' && "ip"@[0] == 'i');
    assert("angular"@.len() == 7 && "euclidean"@.len() == 9);
    assert("inner_product"@.len() == 13 && "inner-product"@.len() == 13);
    assert(cosine[0] == "cosine"@ && cosine[1] == "angular"@);
    assert(l2[0] == "l2"@ && l2[1] == "euclidean"@);
    assert(dot[0] == "dot"@ && dot[1] == "ip"@ && dot[2] == "inner_product"@ && dot[3]
        == "inner-product"@);
    assert(all[0] == "cosine"@ && all[1] == "angular"@ && all[2] == "l2"@ && all[3]
        == "euclidean"@);
    assert(all[4] == "dot"@ && all[5] == "ip"@ && all[6] == "inner_product"@ && all[7]
        == "inner-product"@);
}

/// The ending of a dataset's name tells its metric, whatever stands before it; a name with
/// neither ending is of cosine.
pub proof fn law_ending_tells_the_metric(stem: Seq<char>, name: Seq<char>)
    ensures
        inferred(stem + "-euclidean"@) == "l2"@,
        inferred(stem + "-dot"@) == "dot"@,
        inferred(stem + "-angular"@) == "cosine"@,
        inferred(name) == "l2"@ <==> exists|s: Seq<char>| name == #[trigger] (s + "-euclidean"@),
        inferred(name) == "dot"@ <==> exists|s: Seq<char>| name == #[trigger] (s + "-dot"@),
{
    reveal_strlit("-euclidean");
    reveal_strlit("-dot");
    reveal_strlit("-angular");
    reveal_strlit("l2");
    reveal_strlit("dot");
    reveal_strlit("cosine");
    assert("l2"@.len() == 2 && "dot"@.len() == 3 && "cosine"@.len() == 6);
    lemma_endings(stem, "-euclidean"@);
    lemma_endings(stem, "-dot"@);
    lemma_endings(stem, "-angular"@);
    assert(inferred(name) == "l2"@ ==> crate::text::ends_in(name, "-euclidean"@));
    assert(inferred(name) == "dot"@ ==> crate::text::ends_in(name, "-dot"@));
    if crate::text::ends_in(name, "-euclidean"@) {
        let s = name.take(name.len() - 10);
        assert(name =~= s + "-euclidean"@);
        assert(inferred(name) == "l2"@);
    }
    if crate::text::ends_in(name, "-dot"@) {
        let s = name.take(name.len() - 4);
        assert(name =~= s + "-dot"@);
        lemma_endings(s, "-dot"@);
        assert(inferred(name) == "dot"@);
    }
    assert forall|s: Seq<char>| name == #[trigger] (s + "-euclidean"@) implies inferred(name)
        == "l2"@ by {
        lemma_endings(s, "-euclidean"@);
    }
    assert forall|s: Seq<char>| name == #[trigger] (s + "-dot"@) implies inferred(name)
        == "dot"@ by {
        lemma_endings(s, "-dot"@);
    }
}

proof fn lemma_endings(stem: Seq<char>, ending: Seq<char>)
    ensures
        crate::text::ends_in(stem + ending, ending),
        ending == "-dot"@ ==> !crate::text::ends_in(stem + ending, "-euclidean"@),
        ending == "-angular"@ ==> !crate::text::ends_in(stem + ending, "-euclidean"@)
            && !crate::text::ends_in(stem + ending, "-dot"@),
{
    reveal_strlit("-euclidean");
    reveal_strlit("-dot");
    reveal_strlit("-angular");
    crate::text::lemma_pieces(stem, ending);
    let name = stem + ending;
    let n = name.len() as int;
    if ending.len() > 0 {
        assert(name[n - 1] == ending[ending.len() - 1]);
    }
    if crate::text::ends_in(name, "-euclidean"@) {
        let end = name.subrange(n - 10, n);
        assert(end == "-euclidean"@);
        assert(end[9] == 'n');
        assert(name[n - 1] == end[9]);
    }
    if crate::text::ends_in(name, "-dot"@) {
        let end = name.subrange(n - 4, n);
        assert(end == "-dot"@);
        assert(end[3] == 't');
        assert(name[n - 1] == end[3]);
    }
}

/// What tells the metric, first to last: the option wins over all else; a named dataset wins
/// over the file, and its own name tells; the file's attribute counts where there is a file;
/// cosine is left where nothing tells.
pub proof fn law_metric_precedence(args: SetupArgs, attr: Option<Seq<char>>)
    ensures
        args.metric matches Some(m) ==> telling_word(args, attr) == Some(m@),
        args.metric is None && (args.ann_dataset matches Some(name)
            && crate::datasets::known_names().contains(name@)) ==> (telling_word(args, attr) is None
            && untold_metric(args) == inferred(args.ann_dataset->0@)),
        args.metric is None && !(args.ann_dataset matches Some(name)
            && crate::datasets::known_names().contains(name@)) ==> (untold_metric(args)
            == "cosine"@ && (args.input is Some ==> telling_word(args, attr) == attr) && (
        args.input is None ==> telling_word(args, attr) is None)),
{
}

/// The attribute of the input file makes no difference exactly where the file is not read for it.
pub proof fn law_file_is_read_where_it_tells(
    args: SetupArgs,
    a: Option<Seq<char>>,
    b: Option<Seq<char>>,
)
    requires
        a != b,
    ensures
        telling_word(args, a) != telling_word(args, b) <==> file_tells(
            crate::json::opt_text(args.metric),
            crate::json::opt_text(args.ann_dataset),
            args.input is Some,
        ),
{
}

/// The default name of an index is made of its type and its metric, so that indexes of
/// different types or metrics have different default names. A vector-graph index knows cosine
/// and l2 alone.
pub proof fn law_default_names_tell_the_metric()
    ensures
        default_name(IndexType::Ivf, "cosine"@) == "vector_"@ + "cosine"@,
        default_name(IndexType::Ivf, "l2"@) == "vector_"@ + "l2"@,
        default_name(IndexType::Ivf, "dot"@) == "vector_"@ + "dot"@,
        default_name(IndexType::VectorGraph, "cosine"@) == "vector_graph_"@ + "cosine"@,
        default_name(IndexType::VectorGraph, "l2"@) == "vector_graph_"@ + "l2"@,
        default_name(IndexType::VectorGraph, "dot"@) == default_name(
            IndexType::VectorGraph,
            "cosine"@,
        ),
{
    reveal_strlit("cosine");
    reveal_strlit("l2");
    reveal_strlit("dot");
    reveal_strlit("vector_");
    reveal_strlit("vector_graph_");
    reveal_strlit("vector_cosine");
    reveal_strlit("vector_l2");
    reveal_strlit("vector_dot");
    reveal_strlit("vector_graph_cosine");
    reveal_strlit("vector_graph_l2");
    assert("l2"@.len() == 2 && "dot"@.len() == 3 && "cosine"@.len() == 6);
    assert("vector_"@ + "cosine"@ =~= "vector_cosine"@);
    assert("vector_"@ + "l2"@ =~= "vector_l2"@);
    assert("vector_"@ + "dot"@ =~= "vector_dot"@);
    assert("vector_graph_"@ + "cosine"@ =~= "vector_graph_cosine"@);
    assert("vector_graph_"@ + "l2"@ =~= "vector_graph_l2"@);
}

// ---------------------------------------------------------------------------
// The metric of an index under test
// ---------------------------------------------------------------------------

/// Distance metric of the index under test. The vector-graph index supports
/// cosine and l2; both the query direction and the exact ground-truth function
/// depend on it.
#[derive(Copy, Clone, Debug, PartialEq, Eq, Structural)]
pub enum Metric {
    Cosine,
    L2,
}

/// The name of a metric.
pub open spec fn metric_label(metric: Metric) -> Seq<char> {
    match metric {
        Metric::Cosine => "cosine"@,
        Metric::L2 => "l2"@,
    }
}

/// The AQL approximate-search function of a metric.
pub open spec fn approx_function(metric: Metric) -> Seq<char> {
    match metric {
        Metric::Cosine => "APPROX_NEAR_COSINE"@,
        Metric::L2 => "APPROX_NEAR_L2"@,
    }
}

/// The AQL exact-distance function of a metric.
pub open spec fn exact_function(metric: Metric) -> Seq<char> {
    match metric {
        Metric::Cosine => "COSINE_SIMILARITY"@,
        Metric::L2 => "L2_DISTANCE"@,
    }
}

/// The sort direction that puts the nearest neighbor first.
pub open spec fn direction(metric: Metric) -> Seq<char> {
    match metric {
        Metric::Cosine => "DESC"@,
        Metric::L2 => "ASC"@,
    }
}

/// A higher score is nearer: the score is a similarity.
pub open spec fn higher_is_nearer(metric: Metric) -> bool {
    metric == Metric::Cosine
}

/// Each metric is called by its own name, and that name stands for it on the command line too;
/// its approximate and its exact function are its own; and it sorts downwards exactly where a
/// higher score is nearer.
pub proof fn law_metric_is_consistent(metric: Metric)
    ensures
        metric_of_word(metric_label(metric)) == Some(metric_label(metric)),
        metric_label(metric) == "cosine"@ <==> metric == Metric::Cosine,
        metric_label(metric) == "l2"@ <==> metric == Metric::L2,
        approx_function(metric) == "APPROX_NEAR_COSINE"@ <==> metric_label(metric) == "cosine"@,
        approx_function(metric) == "APPROX_NEAR_L2"@ <==> metric_label(metric) == "l2"@,
        exact_function(metric) == "COSINE_SIMILARITY"@ <==> metric_label(metric) == "cosine"@,
        exact_function(metric) == "L2_DISTANCE"@ <==> metric_label(metric) == "l2"@,
        higher_is_nearer(metric) <==> exact_function(metric) == "COSINE_SIMILARITY"@,
        direction(metric) == "DESC"@ <==> higher_is_nearer(metric),
        direction(metric) == "ASC"@ <==> !higher_is_nearer(metric),
{
    reveal_strlit("cosine");
    reveal_strlit("l2");
    reveal_strlit("angular");
    reveal_strlit("APPROX_NEAR_COSINE");
    reveal_strlit("APPROX_NEAR_L2");
    reveal_strlit("COSINE_SIMILARITY");
    reveal_strlit("L2_DISTANCE");
    reveal_strlit("DESC");
    reveal_strlit("ASC");
    assert("l2"@.len() == 2 && "cosine"@.len() == 6 && "angular"@.len() == 7);
    assert("APPROX_NEAR_COSINE"@.len() != "APPROX_NEAR_L2"@.len());
    assert("COSINE_SIMILARITY"@.len() != "L2_DISTANCE"@.len());
    assert("DESC"@.len() != "ASC"@.len());
}

impl Metric {
    /// The metric with the name `s`.
    pub fn parse(s: &str) -> (res: Result<Metric, MetricError>)
        ensures
            match res {
                Ok(m) => s@ == metric_label(m),
                Err(MetricError::NotForGraph { word }) => {
                    &&& s@ != metric_label(Metric::Cosine)
                    &&& s@ != metric_label(Metric::L2)
                    &&& word@ == s@
                },
                Err(MetricError::Unrecognized { .. }) => false,
            },
    {
        if same_text(s, "cosine") {
            Ok(Metric::Cosine)
        } else if same_text(s, "l2") {
            Ok(Metric::L2)
        } else {
            Err(MetricError::NotForGraph { word: s.to_owned() })
        }
    }

    /// AQL approximate-search function name for this metric.
    pub fn approx_fn(self) -> (res: &'static str)
        ensures
            res@ == approx_function(self),
    {
        match self {
            Metric::Cosine => "APPROX_NEAR_COSINE",
            Metric::L2 => "APPROX_NEAR_L2",
        }
    }

    /// AQL exact-distance function name for brute-force ground truth.
    pub fn exact_fn(self) -> (res: &'static str)
        ensures
            res@ == exact_function(self),
    {
        match self {
            Metric::Cosine => "COSINE_SIMILARITY",
            Metric::L2 => "L2_DISTANCE",
        }
    }

    /// Sort direction that puts the nearest neighbor first: cosine similarity
    /// descends, L2 distance ascends. (The optimizer enforces this pairing.)
    pub fn sort_dir(self) -> (res: &'static str)
        ensures
            res@ == direction(self),
    {
        match self {
            Metric::Cosine => "DESC",
            Metric::L2 => "ASC",
        }
    }

    /// True when the score is a similarity (higher is nearer), false for a
    /// distance (lower is nearer). Governs the sign of the score-gap column.
    pub fn is_similarity(self) -> (res: bool)
        ensures
            res == higher_is_nearer(self),
            res == (self == Metric::Cosine),
    {
        match self {
            Metric::Cosine => true,
            Metric::L2 => false,
        }
    }

    /// The name of this metric.
    pub fn label(self) -> (res: &'static str)
        ensures
            res@ == metric_label(self),
    {
        match self {
            Metric::Cosine => "cosine",
            Metric::L2 => "l2",
        }
    }
}

} // verus!
