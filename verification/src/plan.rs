//! The plan of a `setup` run, and the user's consent to it.

use crate::args::{IndexType, SetupArgs};
use crate::json::{json_scalar_str, put_entry, Json, JsonView};
use crate::params::{kind_label_of, longest_key, param_schema, ParamSpec, Params};
use crate::text::{
    ascii_lower_text, dec_text, join_texts, push_dec, push_right_padded, same_text, trim_text,
};
use vstd::prelude::*;
use vstd::string::*;

verus! {

// ---------------------------------------------------------------------------
// Consent
// ---------------------------------------------------------------------------

/// What the user is asked.
pub fn prompt() -> (res: &'static str)
    ensures
        res@ == "\nProceed with these steps? [Y/n] "@,
{
    "\nProceed with these steps? [Y/n] "
}

/// Whether an answer, or the end of the input in place of one, agrees to the plan.
pub open spec fn agrees(skip: bool, answer: Option<Seq<char>>) -> bool {
    skip || (answer matches Some(a) && {
        let word = crate::text::ascii_lower(crate::text::trimmed(a));
        word.len() == 0 || word == "y"@ || word == "yes"@
    })
}

/// Whether the operation should proceed.
///
/// With `skip` set (the `--no-plan` flag) it proceeds without an answer. Pressing Enter (empty
/// answer) proceeds; a closed/empty stdin (no answer at all) declines rather than hang.
pub fn confirm(skip: bool, answer: Option<&str>) -> (res: bool)
    ensures
        res == agrees(skip, crate::json::opt_str(answer)),
{
    if skip {
        return true;
    }
    match answer {
        None => false,
        Some(answer) => {
            let word = ascii_lower_text(trim_text(answer).as_str());
            let word = word.as_str();
            word.unicode_len() == 0 || same_text(word, "y") || same_text(word, "yes")
        },
    }
}

/// The user agrees by the flag, by Enter, or by `y` or `yes` in any case and with white space
/// round it; with anything else, and with no answer at all, the user does not.
pub proof fn law_consent(skip: bool, a: Seq<char>, b: Seq<char>)
    ensures
        agrees(true, None) && agrees(true, Some(a)),
        !agrees(false, None),
        crate::text::trimmed(a).len() == 0 ==> agrees(skip, Some(a)),
        crate::text::trimmed(a).len() > 3 ==> agrees(skip, Some(a)) == skip,
        crate::text::ascii_lower(crate::text::trimmed(a)) == crate::text::ascii_lower(
            crate::text::trimmed(b),
        ) ==> agrees(skip, Some(a)) == agrees(skip, Some(b)),
        agrees(false, Some(a)) ==> seq![""@, "y"@, "yes"@].contains(
            crate::text::ascii_lower(crate::text::trimmed(a)),
        ),
        seq!["y"@, "yes"@].contains(crate::text::ascii_lower(crate::text::trimmed(a))) ==> agrees(
            false,
            Some(a),
        ),
{
    reveal_strlit("");
    reveal_strlit("y");
    reveal_strlit("yes");
    let word = crate::text::ascii_lower(crate::text::trimmed(a));
    assert("y"@.len() == 1 && "yes"@.len() == 3);
    let all = seq![""@, "y"@, "yes"@];
    assert(all[0] == ""@ && all[1] == "y"@ && all[2] == "yes"@);
    if word.len() == 0 {
        assert(word =~= ""@);
        assert(all.contains(all[0]));
    }
    if word == "y"@ {
        assert(all.contains(all[1]));
    }
    if word == "yes"@ {
        assert(all.contains(all[2]));
    }
}

// ---------------------------------------------------------------------------
// The plan
// ---------------------------------------------------------------------------

/// The number of documents in random mode where none is given.
pub const DEFAULT_RANDOM_NDOCS: usize = 200_000;

/// IVF training iterations. Shared by the plan banner, the "Creating index"
/// line, and the index params actually sent to the server, so the plan can
/// never disagree with what is built.
pub const TRAINING_ITERATIONS: u32 = 25;

/// Where the base vectors come from.
pub enum IngestSource {
    /// Streamed from an HDF5 file.
    Hdf5(String),
    /// Generated random uniform[-1, 1] with this RNG seed.
    Random(u64),
}

/// Single source of truth for a `setup` run: every parameter that both the
/// printed plan and the actual execution depend on. The index JSON the server
/// receives is produced solely by [`SetupPlan::index_definition`], and the plan
/// banner is rendered solely from these same fields, so the two cannot disagree.
pub struct SetupPlan {
    pub index_type: IndexType,
    pub index_name: String,
    pub metric: &'static str,
    pub dim: usize,
    pub shards: u64,
    pub training_iterations: u32,
    pub index_timeout_sec: u64,
    /// Validated, coerced index tuning params from `--set` (keys per index type).
    pub params: Params,
    pub source: IngestSource,
    pub ndocs: Option<usize>,
    pub batch: usize,
    pub workers: usize,
    pub only_vector: bool,
}

/// The type of an index as the server names it.
pub open spec fn wire_type(index_type: IndexType) -> Seq<char> {
    match index_type {
        IndexType::Ivf => "vector"@,
        IndexType::VectorGraph => "vector-graph"@,
    }
}

/// The parameters that every index definition has.
pub open spec fn fixed_params(plan: SetupPlan) -> Seq<(Seq<char>, JsonView)> {
    match plan.index_type {
        IndexType::Ivf => seq![
            ("dimension"@, JsonView::Unsigned(plan.dim as u64)),
            ("metric"@, JsonView::Text(plan.metric@)),
            ("trainingIterations"@, JsonView::Unsigned(plan.training_iterations as u64)),
        ],
        IndexType::VectorGraph => seq![
            ("dimension"@, JsonView::Unsigned(plan.dim as u64)),
            ("metric"@, JsonView::Text(plan.metric@)),
        ],
    }
}

/// The entries with the first `n` parameters put among them.
pub open spec fn with_params(
    entries: Seq<(Seq<char>, JsonView)>,
    params: Seq<(Seq<char>, JsonView)>,
    n: nat,
) -> Seq<(Seq<char>, JsonView)>
    decreases n,
{
    if n == 0 {
        entries
    } else {
        crate::json::put(
            with_params(entries, params, (n - 1) as nat),
            params[n - 1].0,
            params[n - 1].1,
        )
    }
}

/// The parameters of the index definition: the fixed ones and those that were set.
pub open spec fn definition_params(plan: SetupPlan) -> Seq<(Seq<char>, JsonView)> {
    with_params(fixed_params(plan), plan.params@, plan.params@.len())
}

/// The index definition that is sent to the server.
pub open spec fn definition(plan: SetupPlan) -> JsonView {
    JsonView::Object(
        seq![
            ("fields"@, JsonView::Array(seq![JsonView::Text("vector"@)])),
            ("inBackground"@, JsonView::Bool(false)),
            ("name"@, JsonView::Text(plan.index_name@)),
            ("params"@, JsonView::Object(definition_params(plan))),
            ("type"@, JsonView::Text(wire_type(plan.index_type))),
        ],
    )
}

/// The value to show for one param: the set value, else the schema's
/// documented default, else "auto" when there is no default.
pub open spec fn shown_param(plan: SetupPlan, spec: ParamSpec) -> Seq<char> {
    match crate::json::lookup(plan.params@, spec.key@) {
        Some(v) => crate::json::scalar_text(v),
        None => match spec.default {
            Some(d) => d@,
            None => "auto"@,
        },
    }
}

/// Where the shown value of a param comes from.
pub open spec fn param_source(plan: SetupPlan, spec: ParamSpec) -> Seq<char> {
    if crate::json::lookup(plan.params@, spec.key@) is Some {
        "set"@
    } else {
        "server default"@
    }
}

/// Each param for this index type as `key=value`.
pub open spec fn summary(plan: SetupPlan) -> Seq<char> {
    crate::text::joined(
        crate::params::schema(plan.index_type).map_values(
            |spec: ParamSpec| spec.key@ + "="@ + shown_param(plan, spec),
        ),
        ", "@,
    )
}

/// Where the vectors come from.
pub open spec fn source_text(plan: SetupPlan) -> Seq<char> {
    match plan.source {
        IngestSource::Hdf5(path) => "HDF5 file "@ + path@,
        IngestSource::Random(seed) => "random uniform[-1, 1] (seed="@
            + crate::text::dec(seed as nat) + ", dim="@ + crate::text::dec(plan.dim as nat)
            + ")"@,
    }
}

/// How many vectors are inserted.
pub open spec fn count_text(plan: SetupPlan) -> Seq<char> {
    match (plan.source, plan.ndocs) {
        (IngestSource::Hdf5(_), Some(n)) => "up to "@ + crate::text::dec(n as nat) + " rows"@,
        (IngestSource::Hdf5(_), None) => "all rows"@,
        (IngestSource::Random(_), Some(n)) => crate::text::dec(n as nat) + " docs"@,
        (IngestSource::Random(_), None) => crate::text::dec(DEFAULT_RANDOM_NDOCS as nat)
            + " docs"@,
    }
}

/// The step of the plan that inserts the vectors.
pub open spec fn insert_step(plan: SetupPlan, step: u32) -> Seq<char> {
    "  "@ + crate::text::dec(step as nat) + ". Insert "@ + count_text(plan) + " from "@
        + source_text(plan) + "\n     - "@ + crate::text::dec(plan.workers as nat)
        + " parallel workers, batch="@ + crate::text::dec(plan.batch as nat)
        + "\n     - each doc: { idx: <row>, vector: [...] }\n"@
}

/// The line of the plan for a param.
pub open spec fn param_line(plan: SetupPlan, spec: ParamSpec, width: nat) -> Seq<char> {
    "         "@ + crate::text::pad_right(spec.key@, width) + " = "@
        + crate::text::pad_right(shown_param(plan, spec), 6) + " ("@ + param_source(plan, spec)
        + ")\n"@
}

/// The lines of the plan for the params of a list.
pub open spec fn param_lines(plan: SetupPlan, list: Seq<ParamSpec>, width: nat) -> Seq<char>
    decreases list.len(),
{
    if list.len() == 0 {
        Seq::empty()
    } else {
        param_lines(plan, list.drop_last(), width) + param_line(plan, list.last(), width)
    }
}

/// Every param for this index type, aligned, with where its value comes from.
pub open spec fn params_block(plan: SetupPlan) -> Seq<char> {
    "     - params:\n"@ + param_lines(
        plan,
        crate::params::schema(plan.index_type),
        crate::params::key_width(crate::params::schema(plan.index_type)),
    )
}

/// The start of the plan: database and collection.
pub open spec fn plan_head(plan: SetupPlan, db: Seq<char>, coll: Seq<char>) -> Seq<char> {
    "================================================================\nvrecall setup\n================================================================\nWhat we're going to do:\n  1. Ensure database '"@
        + db + "' exists (created if missing)\n  2. Drop (if exists) and recreate collection '"@
        + coll + "' (shards="@ + crate::text::dec(plan.shards as nat) + ")\n"@
}

/// The plan as it is printed.
pub open spec fn plan_text(plan: SetupPlan, db: Seq<char>, coll: Seq<char>) -> Seq<char> {
    if plan.only_vector {
        "vrecall setup (index only)\n  - (Re)create "@ + crate::params::kind_label(
            plan.index_type,
        ) + " vector index '"@ + plan.index_name@ + "' on collection '"@ + coll + "' (metric="@
            + plan.metric@ + ", dim="@ + crate::text::dec(plan.dim as nat) + ")\n"@
    } else {
        match plan.index_type {
            IndexType::Ivf => plan_head(plan, db, coll) + insert_step(plan, 3)
                + "  4. Build IVF vector index '"@ + plan.index_name@
                + "':\n     - type=vector, metric="@ + plan.metric@ + ", dimension="@
                + crate::text::dec(plan.dim as nat) + "\n"@ + params_block(plan)
                + "     - trainingIterations="@
                + crate::text::dec(plan.training_iterations as nat) + "\n     - waits up to "@
                + crate::text::dec(plan.index_timeout_sec as nat) + "s for ready state\n\n"@,
            IndexType::VectorGraph => plan_head(plan, db, coll)
                + "  3. Build vector-graph index '"@ + plan.index_name@
                + "' (on empty collection):\n     - type=vector-graph, metric="@ + plan.metric@
                + ", dimension="@ + crate::text::dec(plan.dim as nat) + " (no training)\n"@
                + params_block(plan) + insert_step(plan, 4)
                + "     - the index is populated as documents are inserted\n\n"@,
        }
    }
}

/// The plan that the arguments ask for.
pub open spec fn planned(
    args: SetupArgs,
    metric: &'static str,
    index_name: String,
    dim: usize,
    params: Params,
) -> SetupPlan {
    SetupPlan {
        index_type: args.index_type,
        index_name,
        metric,
        dim,
        shards: args.shards,
        training_iterations: TRAINING_ITERATIONS,
        index_timeout_sec: args.index_timeout_sec,
        params,
        source: match args.input {
            Some(path) => IngestSource::Hdf5(path),
            None => IngestSource::Random(args.seed->0),
        },
        ndocs: args.ndocs,
        batch: args.batch,
        workers: args.workers,
        only_vector: args.only_vector,
    }
}

/// The plan takes what the user asked for as it was asked for: a file is read wherever one is
/// given, whatever the seed, and vectors are made up from the seed only where none is.
pub proof fn law_plan_follows_the_arguments(
    args: SetupArgs,
    metric: &'static str,
    index_name: String,
    dim: usize,
    params: Params,
)
    ensures
        ({
            let plan = planned(args, metric, index_name, dim, params);
            &&& args.input matches Some(path) ==> plan.source == IngestSource::Hdf5(path)
            &&& args.input is None ==> (args.seed matches Some(seed) ==> plan.source
                == IngestSource::Random(seed))
            &&& plan.index_type == args.index_type
            &&& plan.only_vector == args.only_vector
            &&& (plan.ndocs, plan.batch, plan.workers) == (args.ndocs, args.batch, args.workers)
            &&& (plan.shards, plan.index_timeout_sec) == (args.shards, args.index_timeout_sec)
            &&& (plan.metric, plan.index_name, plan.dim) == (metric, index_name, dim)
            &&& plan.params == params
            &&& plan.training_iterations == 25
        }),
{
}

impl SetupPlan {
    /// The plan that the arguments ask for. A random run needs its seed.
    pub fn from_args(
        args: &SetupArgs,
        metric: &'static str,
        index_name: String,
        dim: usize,
        params: Params,
    ) -> (res: SetupPlan)
        requires
            args.input is None ==> args.seed is Some,
        ensures
            res == planned(*args, metric, index_name, dim, params),
    {
        let source = match &args.input {
            Some(path) => IngestSource::Hdf5(path.clone()),
            None => match args.seed {
                Some(seed) => IngestSource::Random(seed),
                None => IngestSource::Random(0),
            },
        };
        SetupPlan {
            index_type: args.index_type,
            index_name,
            metric,
            dim,
            shards: args.shards,
            training_iterations: TRAINING_ITERATIONS,
            index_timeout_sec: args.index_timeout_sec,
            params,
            source,
            ndocs: args.ndocs,
            batch: args.batch,
            workers: args.workers,
            only_vector: args.only_vector,
        }
    }

    /// The exact `ensureIndex` definition sent to the server. This is the only
    /// place index JSON is built, so what the plan describes is what is created.
    pub fn index_definition(&self) -> (res: Json)
        ensures
            res@ == definition(*self),
    {
        let mut params: Vec<(String, Json)> = vec![
            ("dimension".to_owned(), Json::Unsigned(self.dim as u64)),
            ("metric".to_owned(), Json::Text(self.metric.to_owned())),
        ];
        let wire = match self.index_type {
            IndexType::Ivf => {
                params.push(
                    (
                        "trainingIterations".to_owned(),
                        Json::Unsigned(self.training_iterations as u64),
                    ),
                );
                "vector"
            },
            IndexType::VectorGraph => "vector-graph",
        };
        let ghost set = self.params@;
        assert(crate::json::entry_views(params@) =~= fixed_params(*self));
        for i in 0..self.params.entries.len()
            invariant
                set == self.params@,
                crate::json::entry_views(params@) == with_params(
                    fixed_params(*self),
                    set,
                    i as nat,
                ),
        {
            assert(set[i as int] == (
                self.params.entries@[i as int].0@,
                self.params.entries@[i as int].1@,
            ));
            put_entry(
                &mut params,
                self.params.entries[i].0.as_str(),
                self.params.entries[i].1.copy(),
            );
        }
        let fields_items: Vec<Json> = vec![Json::Text("vector".to_owned())];
        let fields = Json::Array(fields_items);
        let params_value = Json::Object(params);
        let ghost fields_view = fields@;
        let ghost params_view = params_value@;
        proof {
            crate::json::lemma_view_parts(fields);
            crate::json::lemma_view_parts(params_value);
            assert(crate::json::json_views(fields_items@) =~= seq![JsonView::Text("vector"@)]);
        }
        let entries: Vec<(String, Json)> = vec![
            ("fields".to_owned(), fields),
            ("inBackground".to_owned(), Json::Bool(false)),
            ("name".to_owned(), Json::Text(self.index_name.clone())),
            ("params".to_owned(), params_value),
            ("type".to_owned(), Json::Text(wire.to_owned())),
        ];
        let res = Json::Object(entries);
        proof {
            crate::json::lemma_view_parts(res);
            assert(crate::json::entry_views(entries@) =~= definition(*self)->Object_0);
        }
        res
    }

    /// The name of the index type in the plan, the same text as in `--set` validation errors.
    pub fn kind_label(&self) -> (res: &'static str)
        ensures
            res@ == crate::params::kind_label(self.index_type),
    {
        kind_label_of(self.index_type)
    }

    /// The value to show for one param: the set value, else the schema's
    /// documented default, else "auto" when there is no default.
    pub fn param_display(&self, spec: &ParamSpec) -> (res: String)
        requires
            self.params.wf(),
        ensures
            res@ == shown_param(*self, *spec),
    {
        match self.params.get(spec.key) {
            Some(v) => {
                proof {
                    lemma_lookup_member(self.params@, spec.key@);
                }
                json_scalar_str(v)
            },
            None => match spec.default {
                Some(d) => d.to_owned(),
                None => "auto".to_owned(),
            },
        }
    }

    /// Render each param for this index type as `key=value`, showing the
    /// documented server default (or "auto") for keys the user did not set.
    pub fn params_summary(&self) -> (res: String)
        requires
            self.params.wf(),
        ensures
            res@ == summary(*self),
    {
        let list = param_schema(self.index_type);
        let mut parts: Vec<String> = Vec::new();
        for i in 0..list.len()
            invariant
                self.params.wf(),
                parts@.len() == i,
                forall|k: int|
                    0 <= k < i ==> (#[trigger] parts@[k])@ == list@[k].key@ + "="@ + shown_param(
                        *self,
                        list@[k],
                    ),
        {
            let mut part = list[i].key.to_owned();
            part.append("=");
            part.append(self.param_display(&list[i]).as_str());
            parts.push(part);
        }
        assert(crate::text::texts(parts@) =~= list@.map_values(
            |spec: ParamSpec| spec.key@ + "="@ + shown_param(*self, spec),
        ));
        join_texts(&parts, ", ")
    }

    /// Where the vectors come from.
    pub fn source_str(&self) -> (res: String)
        ensures
            res@ == source_text(*self),
    {
        match &self.source {
            IngestSource::Hdf5(path) => {
                let mut out = "HDF5 file ".to_owned();
                out.append(path.as_str());
                out
            },
            IngestSource::Random(seed) => {
                let mut out = "random uniform[-1, 1] (seed=".to_owned();
                push_dec(&mut out, *seed);
                out.append(", dim=");
                push_dec(&mut out, self.dim as u64);
                out.append(")");
                out
            },
        }
    }

    /// How many vectors are inserted.
    pub fn count_str(&self) -> (res: String)
        ensures
            res@ == count_text(*self),
    {
        match (&self.source, self.ndocs) {
            (IngestSource::Hdf5(_), Some(n)) => {
                let mut out = "up to ".to_owned();
                push_dec(&mut out, n as u64);
                out.append(" rows");
                out
            },
            (IngestSource::Hdf5(_), None) => "all rows".to_owned(),
            (IngestSource::Random(_), Some(n)) => {
                let mut out = dec_text(n as u64);
                out.append(" docs");
                out
            },
            (IngestSource::Random(_), None) => {
                let mut out = dec_text(DEFAULT_RANDOM_NDOCS as u64);
                out.append(" docs");
                out
            },
        }
    }

    /// The step of the plan that inserts the vectors.
    pub fn insert_step_text(&self, step: u32) -> (res: String)
        ensures
            res@ == insert_step(*self, step),
    {
        let mut out = "  ".to_owned();
        push_dec(&mut out, step as u64);
        out.append(". Insert ");
        out.append(self.count_str().as_str());
        out.append(" from ");
        out.append(self.source_str().as_str());
        out.append("\n     - ");
        push_dec(&mut out, self.workers as u64);
        out.append(" parallel workers, batch=");
        push_dec(&mut out, self.batch as u64);
        out.append("\n     - each doc: { idx: <row>, vector: [...] }\n");
        out
    }

    /// List every param for this index type, aligned, marking whether each was
    /// set via `--set` or is falling back to the documented server default.
    pub fn params_block_text(&self) -> (res: String)
        requires
            self.params.wf(),
        ensures
            res@ == params_block(*self),
    {
        let list = param_schema(self.index_type);
        let width = longest_key(&list);
        let mut lines = String::new();
        assert(lines@ =~= param_lines(*self, list@.take(0), width as nat));
        for i in 0..list.len()
            invariant
                self.params.wf(),
                lines@ == param_lines(*self, list@.take(i as int), width as nat),
        {
            assert(list@.take(i + 1).drop_last() =~= list@.take(i as int));
            let source = if self.params.contains_key(list[i].key) {
                "set"
            } else {
                "server default"
            };
            let mut line = "         ".to_owned();
            push_right_padded(&mut line, list[i].key, width);
            line.append(" = ");
            push_right_padded(&mut line, self.param_display(&list[i]).as_str(), 6);
            line.append(" (");
            line.append(source);
            line.append(")\n");
            lines.append(line.as_str());
        }
        assert(list@.take(list@.len() as int) =~= list@);
        let mut out = "     - params:\n".to_owned();
        out.append(lines.as_str());
        out
    }

    /// The plan as it is printed, rendered from the fields of the plan alone.
    pub fn banner(&self, db: &str, coll: &str) -> (res: String)
        requires
            self.params.wf(),
        ensures
            res@ == plan_text(*self, db@, coll@),
    {
        if self.only_vector {
            let mut out = "vrecall setup (index only)\n  - (Re)create ".to_owned();
            out.append(self.kind_label());
            out.append(" vector index '");
            out.append(self.index_name.as_str());
            out.append("' on collection '");
            out.append(coll);
            out.append("' (metric=");
            out.append(self.metric);
            out.append(", dim=");
            push_dec(&mut out, self.dim as u64);
            out.append(")\n");
            return out;
        }
        let mut out = "================================================================\nvrecall setup\n================================================================\nWhat we're going to do:\n  1. Ensure database '".to_owned();
        out.append(db);
        out.append("' exists (created if missing)\n  2. Drop (if exists) and recreate collection '");
        out.append(coll);
        out.append("' (shards=");
        push_dec(&mut out, self.shards);
        out.append(")\n");
        match self.index_type {
            IndexType::Ivf => {
                out.append(self.insert_step_text(3).as_str());
                out.append("  4. Build IVF vector index '");
                out.append(self.index_name.as_str());
                out.append("':\n     - type=vector, metric=");
                out.append(self.metric);
                out.append(", dimension=");
                push_dec(&mut out, self.dim as u64);
                out.append("\n");
                out.append(self.params_block_text().as_str());
                out.append("     - trainingIterations=");
                push_dec(&mut out, self.training_iterations as u64);
                out.append("\n     - waits up to ");
                push_dec(&mut out, self.index_timeout_sec);
                out.append("s for ready state\n\n");
            },
            // The graph index is created first, then populated as docs stream in.
            IndexType::VectorGraph => {
                out.append("  3. Build vector-graph index '");
                out.append(self.index_name.as_str());
                out.append("' (on empty collection):\n     - type=vector-graph, metric=");
                out.append(self.metric);
                out.append(", dimension=");
                push_dec(&mut out, self.dim as u64);
                out.append(" (no training)\n");
                out.append(self.params_block_text().as_str());
                out.append(self.insert_step_text(4).as_str());
                out.append("     - the index is populated as documents are inserted\n\n");
            },
        }
        out
    }
}

proof fn lemma_lookup_member(entries: Seq<(Seq<char>, JsonView)>, key: Seq<char>)
    ensures
        crate::json::lookup(entries, key) matches Some(v) ==> exists|i: int|
            0 <= i < entries.len() && #[trigger] entries[i] == (key, v),
    decreases entries.len(),
{
    if entries.len() > 0 {
        if entries[0].0 == key {
            assert(entries[0] == (key, entries[0].1));
        } else {
            let rest = entries.drop_first();
            lemma_lookup_member(rest, key);
            if let Some(v) = crate::json::lookup(rest, key) {
                let i = choose|i: int| 0 <= i < rest.len() && #[trigger] rest[i] == (key, v);
                assert(entries[i + 1] == (key, v));
            }
        }
    }
}

// ---------------------------------------------------------------------------
// What the server receives is what the plan shows
// ---------------------------------------------------------------------------

/// No key occurs twice.
pub open spec fn distinct_keys(params: Seq<(Seq<char>, JsonView)>) -> bool {
    forall|i: int, j: int|
        0 <= i < j < params.len() ==> (#[trigger] params[i]).0 != (#[trigger] params[j]).0
}

proof fn lemma_lookup_prefix(params: Seq<(Seq<char>, JsonView)>, n: int, k: Seq<char>)
    requires
        0 < n <= params.len(),
    ensures
        crate::json::lookup(params.take(n), k) == (match crate::json::lookup(
            params.take(n - 1),
            k,
        ) {
            Some(v) => Some(v),
            None => if params[n - 1].0 == k {
                Some(params[n - 1].1)
            } else {
                None
            },
        }),
    decreases n,
{
    let whole = params.take(n);
    let front = params.take(n - 1);
    if n == 1 {
        assert(whole.drop_first() =~= Seq::empty());
        assert(front =~= Seq::empty());
    } else if params[0].0 != k {
        let rest = params.drop_first();
        lemma_lookup_prefix(rest, n - 1, k);
        assert(whole.drop_first() =~= rest.take(n - 1));
        assert(front.drop_first() =~= rest.take(n - 2));
        assert(rest[n - 2] == params[n - 1]);
    }
}

proof fn lemma_with_params(
    entries: Seq<(Seq<char>, JsonView)>,
    params: Seq<(Seq<char>, JsonView)>,
    n: nat,
    k: Seq<char>,
)
    requires
        distinct_keys(params),
        n <= params.len(),
    ensures
        crate::json::lookup(with_params(entries, params, n), k) == (match crate::json::lookup(
            params.take(n as int),
            k,
        ) {
            Some(v) => Some(v),
            None => crate::json::lookup(entries, k),
        }),
    decreases n,
{
    if n == 0 {
        assert(params.take(0) =~= Seq::empty());
    } else {
        let m = (n - 1) as nat;
        lemma_with_params(entries, params, m, k);
        lemma_lookup_prefix(params, n as int, k);
        crate::json::lemma_put_lookup(
            with_params(entries, params, m),
            params[m as int].0,
            params[m as int].1,
            k,
        );
        if params[m as int].0 == k {
            let front = params.take(m as int);
            lemma_lookup_member(front, k);
            if let Some(v) = crate::json::lookup(front, k) {
                let i = choose|i: int| 0 <= i < front.len() && #[trigger] front[i] == (k, v);
                assert(params[i].0 != params[m as int].0);
            }
        }
    }
}

/// The definition that the server receives holds exactly what the plan holds: each parameter
/// that was set, with its value; for every other key what the index type fixes, and for all
/// the rest nothing.
pub proof fn law_definition_holds_the_plan(plan: SetupPlan, key: Seq<char>)
    requires
        plan.params.wf(),
    ensures
        crate::json::lookup(definition_params(plan), key) == (match crate::json::lookup(
            plan.params@,
            key,
        ) {
            Some(v) => Some(v),
            None => crate::json::lookup(fixed_params(plan), key),
        }),
{
    lemma_with_params(fixed_params(plan), plan.params@, plan.params@.len(), key);
    assert(plan.params@.take(plan.params@.len() as int) =~= plan.params@);
}

/// A tuning parameter stands in the definition where the user set it, with the value that the
/// plan shows, and is left to the server where the plan shows a default; metric and dimension
/// are those of the plan.
pub proof fn law_definition_is_what_the_plan_shows(
    plan: SetupPlan,
    raw: Seq<(Seq<char>, Seq<char>)>,
    i: int,
)
    requires
        plan.params.wf(),
        crate::params::validated(plan.index_type, raw) == Ok::<
            Seq<(Seq<char>, JsonView)>,
            crate::params::ParamErrorView,
        >(plan.params@),
        0 <= i < crate::params::schema(plan.index_type).len(),
    ensures
        ({
            let spec = crate::params::schema(plan.index_type)[i];
            let sent = crate::json::lookup(definition_params(plan), spec.key@);
            &&& sent == crate::json::lookup(plan.params@, spec.key@)
            &&& sent matches Some(v) ==> shown_param(plan, spec) == crate::json::scalar_text(v)
                && param_source(plan, spec) == "set"@
            &&& sent is None ==> param_source(plan, spec) == "server default"@
        }),
        crate::json::lookup(definition_params(plan), "metric"@) == Some(
            JsonView::Text(plan.metric@),
        ),
        crate::json::lookup(definition_params(plan), "dimension"@) == Some(
            JsonView::Unsigned(plan.dim as u64),
        ),
{
    let list = crate::params::schema(plan.index_type);
    let spec = list[i];
    let params = plan.params@;
    law_definition_holds_the_plan(plan, spec.key@);
    law_definition_holds_the_plan(plan, "metric"@);
    law_definition_holds_the_plan(plan, "dimension"@);
    crate::params::law_accepted_params(plan.index_type, raw, params);
    lemma_fixed_keys(plan);
    lemma_schema_keys(plan.index_type);
    lemma_lookup_member(params, "metric"@);
    lemma_lookup_member(params, "dimension"@);
    assert forall|k: int| 0 <= k < params.len() implies (#[trigger] params[k]).0 != "metric"@
        && params[k].0 != "dimension"@ by {
        assert(params[k].0 == raw[k].0);
    }
    lemma_lookup_member(fixed_params(plan), spec.key@);
}

/// No key of a schema is one that an index definition has anyway.
proof fn lemma_schema_keys(index_type: IndexType)
    ensures
        forall|i: int|
            0 <= i < crate::params::schema(index_type).len() ==> {
                let key = (#[trigger] crate::params::schema(index_type)[i]).key@;
                key != "metric"@ && key != "dimension"@ && key != "trainingIterations"@
            },
        crate::params::spec_named(crate::params::schema(index_type), "metric"@) is None,
        crate::params::spec_named(crate::params::schema(index_type), "dimension"@) is None,
        crate::params::spec_named(crate::params::schema(index_type), "trainingIterations"@) is None,
{
    reveal_strlit("nLists");
    reveal_strlit("factory");
    reveal_strlit("alpha");
    reveal_strlit("maxDegree");
    reveal_strlit("metric");
    reveal_strlit("dimension");
    reveal_strlit("trainingIterations");
    assert("nLists"@[0] != "metric"@[0]);
    assert("maxDegree"@[0] != "dimension"@[0]);
    let list = crate::params::schema(index_type);
    assert forall|i: int| 0 <= i < list.len() implies {
        let key = (#[trigger] list[i]).key@;
        key != "metric"@ && key != "dimension"@ && key != "trainingIterations"@
    } by {
        assert(i == 0 || i == 1);
        assert("nLists"@.len() == 6 && "factory"@.len() == 7 && "alpha"@.len() == 5
            && "maxDegree"@.len() == 9);
        assert("metric"@.len() == 6 && "dimension"@.len() == 9 && "trainingIterations"@.len()
            == 18);
    }
    reveal_with_fuel(crate::params::spec_named, 3);
    assert(list.drop_first()[0] == list[1]);
    assert(list.drop_first().drop_first() =~= Seq::empty());
}

/// The fixed entries of a definition.
proof fn lemma_fixed_keys(plan: SetupPlan)
    ensures
        crate::json::lookup(fixed_params(plan), "metric"@) == Some(JsonView::Text(plan.metric@)),
        crate::json::lookup(fixed_params(plan), "dimension"@) == Some(
            JsonView::Unsigned(plan.dim as u64),
        ),
        forall|k: int|
            0 <= k < fixed_params(plan).len() ==> {
                let key = (#[trigger] fixed_params(plan)[k]).0;
                key == "metric"@ || key == "dimension"@ || key == "trainingIterations"@
            },
{
    reveal_strlit("metric");
    reveal_strlit("dimension");
    assert("metric"@.len() != "dimension"@.len());
    let fixed = fixed_params(plan);
    assert(fixed.drop_first()[0] == fixed[1]);
    reveal_with_fuel(crate::json::lookup, 3);
}

/// The index that the definition asks for is one that a benchmark finds: it has the name and the
/// type of the plan, its dimension and its metric, and is on the vectors of the documents. It is
/// built in the foreground; only an IVF index is trained.
#[verifier::rlimit(40)]
pub proof fn law_definition_asks_for_the_index(
    plan: SetupPlan,
    raw: Seq<(Seq<char>, Seq<char>)>,
)
    requires
        plan.params.wf(),
        crate::params::validated(plan.index_type, raw) == Ok::<
            Seq<(Seq<char>, JsonView)>,
            crate::params::ParamErrorView,
        >(plan.params@),
    ensures
        ({
            let def = definition(plan);
            &&& crate::indexes::index_name(def) == Some(plan.index_name@)
            &&& crate::indexes::of_vector_type(def)
            &&& crate::indexes::is_graph(def) <==> plan.index_type is VectorGraph
            &&& crate::json::member(def, "type"@) == JsonView::Text("vector"@)
                <==> plan.index_type is Ivf
            &&& crate::bench::index_dimension(def) == Some(plan.dim as u64)
            &&& crate::bench::graph_metric(def) == Some(plan.metric@)
            &&& crate::json::member(def, "fields"@) == JsonView::Array(
                seq![JsonView::Text("vector"@)],
            )
            &&& crate::json::member(def, "inBackground"@) == JsonView::Bool(false)
            &&& crate::json::member(crate::json::member(def, "params"@), "trainingIterations"@) == (
            match plan.index_type {
                IndexType::Ivf => JsonView::Unsigned(plan.training_iterations as u64),
                IndexType::VectorGraph => JsonView::Null,
            })
        }),
{
    lemma_definition_members(plan);
    let def = definition(plan);
    assert(crate::params::schema(plan.index_type).len() > 0);
    law_definition_is_what_the_plan_shows(plan, raw, 0);
    lemma_training(plan, raw);
    reveal_strlit("vector");
    reveal_strlit("vector-graph");
    assert("vector"@.len() == 6 && "vector-graph"@.len() == 12);
    assert(crate::json::member(def, "params"@) == JsonView::Object(definition_params(plan)));
}

proof fn lemma_definition_members(plan: SetupPlan)
    ensures
        ({
            let def = definition(plan);
            &&& crate::json::member(def, "fields"@) == JsonView::Array(
                seq![JsonView::Text("vector"@)],
            )
            &&& crate::json::member(def, "inBackground"@) == JsonView::Bool(false)
            &&& crate::json::member(def, "name"@) == JsonView::Text(plan.index_name@)
            &&& crate::json::member(def, "params"@) == JsonView::Object(definition_params(plan))
            &&& crate::json::member(def, "type"@) == JsonView::Text(wire_type(plan.index_type))
        }),
{
    reveal_strlit("fields");
    reveal_strlit("inBackground");
    reveal_strlit("name");
    reveal_strlit("params");
    reveal_strlit("type");
    assert("fields"@.len() == 6 && "fields"@[0] == 'f' && "inBackground"@.len() == 12);
    assert("name"@.len() == 4 && "name"@[0] == 'n' && "params"@.len() == 6 && "params"@[0] == 'p');
    assert("type"@.len() == 4 && "type"@[0] == 't');
    let entries = definition(plan)->Object_0;
    crate::json::lemma_lookup_at(entries, 0);
    crate::json::lemma_lookup_at(entries, 1);
    crate::json::lemma_lookup_at(entries, 2);
    crate::json::lemma_lookup_at(entries, 3);
    crate::json::lemma_lookup_at(entries, 4);
}

#[verifier::rlimit(40)]
proof fn lemma_training(plan: SetupPlan, raw: Seq<(Seq<char>, Seq<char>)>)
    requires
        plan.params.wf(),
        crate::params::validated(plan.index_type, raw) == Ok::<
            Seq<(Seq<char>, JsonView)>,
            crate::params::ParamErrorView,
        >(plan.params@),
    ensures
        crate::json::lookup(definition_params(plan), "trainingIterations"@) == (
        match plan.index_type {
            IndexType::Ivf => Some(JsonView::Unsigned(plan.training_iterations as u64)),
            IndexType::VectorGraph => None,
        }),
{
    law_definition_holds_the_plan(plan, "trainingIterations"@);
    crate::params::law_accepted_params(plan.index_type, raw, plan.params@);
    lemma_lookup_member(plan.params@, "trainingIterations"@);
    lemma_schema_keys(plan.index_type);
    assert forall|k: int| 0 <= k < plan.params@.len() implies (#[trigger] plan.params@[k]).0
        != "trainingIterations"@ by {
        assert(plan.params@[k].0 == raw[k].0);
    }
    reveal_strlit("metric");
    reveal_strlit("dimension");
    reveal_strlit("trainingIterations");
    assert("metric"@.len() == 6 && "dimension"@.len() == 9 && "trainingIterations"@.len() == 18);
    let fixed = fixed_params(plan);
    if plan.index_type is Ivf {
        crate::json::lemma_lookup_at(fixed, 2);
    } else {
        lemma_lookup_member(fixed, "trainingIterations"@);
        assert(fixed[0].0 == "dimension"@ && fixed[1].0 == "metric"@);
    }
}

/// A parameter that was not set is shown with what the server takes for it: its default, or
/// `auto` where the server chooses.
pub proof fn law_unset_params_show_the_default(plan: SetupPlan, spec: ParamSpec)
    ensures
        param_source(plan, spec) == "server default"@ ==> shown_param(plan, spec) == (
        match spec.default {
            Some(d) => d@,
            None => "auto"@,
        }),
        param_source(plan, spec) == "set"@ || param_source(plan, spec) == "server default"@,
        crate::json::lookup(plan.params@, spec.key@) matches Some(JsonView::Text(t))
            ==> shown_param(plan, spec) == t,
        crate::json::lookup(plan.params@, spec.key@) matches Some(JsonView::Unsigned(n))
            ==> shown_param(plan, spec) == crate::text::dec(n as nat),
{
    reveal_strlit("set");
    reveal_strlit("server default");
    assert("set"@.len() != "server default"@.len());
}

/// The summary names the two parameters of the index type, each with the value that is shown.
pub proof fn law_summary_names_every_param(plan: SetupPlan)
    ensures
        ({
            let list = crate::params::schema(plan.index_type);
            list.len() == 2 && summary(plan) == list[0].key@ + "="@ + shown_param(plan, list[0])
                + ", "@ + (list[1].key@ + "="@ + shown_param(plan, list[1]))
        }),
{
    let list = crate::params::schema(plan.index_type);
    let a = list[0].key@ + "="@ + shown_param(plan, list[0]);
    let b = list[1].key@ + "="@ + shown_param(plan, list[1]);
    let parts = list.map_values(|spec: ParamSpec| spec.key@ + "="@ + shown_param(plan, spec));
    assert(parts =~= seq![a] + seq![b]);
    crate::text::law_joined(seq![a], seq![b], a, ", "@);
    crate::text::law_joined(seq![b], seq![a], b, ", "@);
}

proof fn lemma_param_lines(plan: SetupPlan, list: Seq<ParamSpec>, width: nat, i: int)
    requires
        0 <= i < list.len(),
    ensures
        crate::text::occurs(param_lines(plan, list, width), param_line(plan, list[i], width)),
    decreases list.len(),
{
    let front = param_lines(plan, list.drop_last(), width);
    let line = param_line(plan, list.last(), width);
    if i == list.len() - 1 {
        assert(front + line + Seq::<char>::empty() =~= front + line);
        crate::text::lemma_middle(front, line, Seq::empty());
    } else {
        lemma_param_lines(plan, list.drop_last(), width, i);
        let pat = param_line(plan, list[i], width);
        let at = choose|at: int| crate::text::stands_at(front, pat, at);
        assert((front + line).subrange(at, at + pat.len()) =~= front.subrange(
            at,
            at + pat.len(),
        ));
        assert(crate::text::stands_at(front + line, pat, at));
    }
}

/// The plan lists every parameter of the index type, its name padded to the longest, with the
/// value that is shown and where it comes from.
pub proof fn law_plan_lists_every_param(plan: SetupPlan, i: int)
    requires
        0 <= i < crate::params::schema(plan.index_type).len(),
    ensures
        ({
            let list = crate::params::schema(plan.index_type);
            crate::text::occurs(
                params_block(plan),
                "         "@ + crate::text::pad_right(
                    list[i].key@,
                    crate::params::key_width(list),
                ) + " = "@ + crate::text::pad_right(shown_param(plan, list[i]), 6) + " ("@
                    + param_source(plan, list[i]) + ")\n"@,
            )
        }),
{
    let list = crate::params::schema(plan.index_type);
    let width = crate::params::key_width(list);
    lemma_param_lines(plan, list, width, i);
    let head = "     - params:\n"@;
    let lines = param_lines(plan, list, width);
    let pat = param_line(plan, list[i], width);
    let at = choose|at: int| crate::text::stands_at(lines, pat, at);
    assert((head + lines).subrange(head.len() + at, head.len() + at + pat.len())
        =~= lines.subrange(at, at + pat.len()));
    assert(crate::text::stands_at(head + lines, pat, head.len() + at));
}

/// The number of vectors in the plan: of a file at most as many rows as were asked for, or all;
/// of random vectors as many as were asked for, or the default number.
pub proof fn law_count_of_the_plan(plan: SetupPlan, n: usize)
    ensures
        plan.source is Hdf5 && plan.ndocs == Some(n) ==> count_text(plan) == "up to "@
            + crate::text::dec(n as nat) + " rows"@,
        plan.source is Hdf5 && plan.ndocs is None ==> count_text(plan) == "all rows"@,
        plan.source is Random && plan.ndocs == Some(n) ==> count_text(plan) == crate::text::dec(
            n as nat,
        ) + " docs"@,
        plan.source is Random && plan.ndocs is None ==> count_text(plan) == count_text(
            SetupPlan { ndocs: Some(200_000), ..plan },
        ),
        plan.source matches IngestSource::Hdf5(path) ==> crate::text::ends_in(
            source_text(plan),
            path@,
        ),
        plan.source matches IngestSource::Random(seed) ==> source_text(plan)
            == "random uniform[-1, 1] (seed="@ + crate::text::dec(seed as nat) + ", dim="@
            + crate::text::dec(plan.dim as nat) + ")"@,
{
    if let IngestSource::Hdf5(path) = plan.source {
        crate::text::lemma_pieces("HDF5 file "@, path@);
    }
}

/// What the plan says of the index to be built: its type, name, metric and dimension.
pub open spec fn index_step(plan: SetupPlan) -> Seq<char> {
    match plan.index_type {
        IndexType::Ivf => ". Build IVF vector index '"@ + plan.index_name@
            + "':\n     - type=vector, metric="@ + plan.metric@ + ", dimension="@
            + crate::text::dec(plan.dim as nat),
        IndexType::VectorGraph => ". Build vector-graph index '"@ + plan.index_name@
            + "' (on empty collection):\n     - type=vector-graph, metric="@ + plan.metric@
            + ", dimension="@ + crate::text::dec(plan.dim as nat),
    }
}

/// `first` stands in `text`, and `second` behind its start.
pub open spec fn in_turn(text: Seq<char>, first: Seq<char>, second: Seq<char>) -> bool {
    exists|a: int, b: int| a < b && #[trigger] crate::text::stands_at(text, first, a)
        && #[trigger] crate::text::stands_at(text, second, b)
}

/// The plan shows the steps in the order in which they are taken: an IVF index is built on the
/// vectors that were inserted, a vector-graph index before any is. With `only_vector` nothing is
/// inserted, and the plan says of the index what is built.
#[verifier::rlimit(40)]
pub proof fn law_plan_shows_the_steps(plan: SetupPlan, db: Seq<char>, coll: Seq<char>)
    ensures
        !plan.only_vector ==> crate::text::begins_with(
            plan_text(plan, db, coll),
            plan_head(plan, db, coll),
        ),
        !plan.only_vector && plan.index_type is Ivf ==> in_turn(
            plan_text(plan, db, coll),
            insert_step(plan, 3),
            "  4"@ + index_step(plan),
        ),
        !plan.only_vector && plan.index_type is VectorGraph ==> in_turn(
            plan_text(plan, db, coll),
            "  3"@ + index_step(plan),
            insert_step(plan, 4),
        ),
        plan.only_vector ==> crate::text::occurs(
            plan_text(plan, db, coll),
            (match plan.index_type {
                IndexType::Ivf => "ivf"@,
                IndexType::VectorGraph => "vector-graph"@,
            }) + " vector index '"@ + plan.index_name@ + "' on collection '"@ + coll
                + "' (metric="@ + plan.metric@ + ", dim="@ + crate::text::dec(plan.dim as nat)
                + ")\n"@,
        ),
{
    let text = plan_text(plan, db, coll);
    if plan.only_vector {
        let front = "vrecall setup (index only)\n  - (Re)create "@;
        let kind = match plan.index_type {
            IndexType::Ivf => "ivf"@,
            IndexType::VectorGraph => "vector-graph"@,
        };
        let what = kind + " vector index '"@ + plan.index_name@ + "' on collection '"@ + coll
            + "' (metric="@ + plan.metric@ + ", dim="@ + crate::text::dec(plan.dim as nat)
            + ")\n"@;
        assert(text =~= front + what + Seq::<char>::empty());
        crate::text::lemma_middle(front, what, Seq::empty());
    } else {
        match plan.index_type {
            IndexType::Ivf => {
                lemma_ivf_steps(plan, db, coll);
            },
            IndexType::VectorGraph => {
                lemma_graph_steps(plan, db, coll);
            },
        }
    }
}

#[verifier::rlimit(40)]
proof fn lemma_ivf_steps(plan: SetupPlan, db: Seq<char>, coll: Seq<char>)
    requires
        !plan.only_vector,
        plan.index_type is Ivf,
    ensures
        ({
            let head = plan_head(plan, db, coll);
            let ins = insert_step(plan, 3);
            let build = "  4"@ + index_step(plan);
            let text = plan_text(plan, db, coll);
            &&& ins.len() > 0
            &&& crate::text::begins_with(text, head)
            &&& crate::text::stands_at(text, ins, head.len() as int)
            &&& crate::text::stands_at(text, build, (head.len() + ins.len()) as int)
        }),
{
    reveal_strlit("  4. Build IVF vector index '");
    reveal_strlit("  4");
    reveal_strlit(". Build IVF vector index '");
    reveal_strlit("  ");
    let head = plan_head(plan, db, coll);
    let ins = insert_step(plan, 3);
    let build = "  4"@ + index_step(plan);
    let block = params_block(plan);
    let tail = "\n"@ + block + "     - trainingIterations="@ + crate::text::dec(
        plan.training_iterations as nat,
    ) + "\n     - waits up to "@ + crate::text::dec(plan.index_timeout_sec as nat)
        + "s for ready state\n\n"@;
    assert("  4. Build IVF vector index '"@ =~= "  4"@ + ". Build IVF vector index '"@);
    let text = plan_text(plan, db, coll);
    assert(text =~= head + ins + build + tail);
    lemma_two_pieces(head, ins, build, tail);
    assert(text =~= head + (ins + build + tail));
    crate::text::lemma_pieces(head, ins + build + tail);
}

#[verifier::rlimit(40)]
proof fn lemma_graph_steps(plan: SetupPlan, db: Seq<char>, coll: Seq<char>)
    requires
        !plan.only_vector,
        plan.index_type is VectorGraph,
    ensures
        ({
            let head = plan_head(plan, db, coll);
            let ins = insert_step(plan, 4);
            let build = "  3"@ + index_step(plan);
            let text = plan_text(plan, db, coll);
            &&& crate::text::begins_with(text, head)
            &&& crate::text::stands_at(text, build, head.len() as int)
            &&& exists|b: int| b > head.len() && #[trigger] crate::text::stands_at(text, ins, b)
        }),
{
    reveal_strlit("  3. Build vector-graph index '");
    reveal_strlit("  3");
    reveal_strlit(". Build vector-graph index '");
    let head = plan_head(plan, db, coll);
    let ins = insert_step(plan, 4);
    let build = "  3"@ + index_step(plan);
    let mid = " (no training)\n"@ + params_block(plan);
    let tail = "     - the index is populated as documents are inserted\n\n"@;
    assert("  3. Build vector-graph index '"@ =~= "  3"@ + ". Build vector-graph index '"@);
    let text = plan_text(plan, db, coll);
    assert(text =~= (head + build) + mid + ins + tail);
    lemma_two_pieces(head + build, mid, ins, tail);
    assert(crate::text::stands_at(text, ins, ((head + build).len() + mid.len()) as int));
    assert(text =~= head + build + mid + (ins + tail));
    lemma_two_pieces(head, build, mid, ins + tail);
    assert(text =~= head + (build + mid + ins + tail));
    crate::text::lemma_pieces(head, build + mid + ins + tail);
}

proof fn lemma_two_pieces(a: Seq<char>, b: Seq<char>, c: Seq<char>, d: Seq<char>)
    ensures
        crate::text::stands_at(a + b + c + d, b, a.len() as int),
        crate::text::stands_at(a + b + c + d, c, (a.len() + b.len()) as int),
{
    let text = a + b + c + d;
    assert(text.subrange(a.len() as int, (a.len() + b.len()) as int) =~= b);
    assert(text.subrange((a.len() + b.len()) as int, (a.len() + b.len() + c.len()) as int) =~= c);
}

/// The definition has its keys in order, so that its text is that of `serde_json`.
pub proof fn law_definition_is_ordered(plan: SetupPlan)
    requires
        plan.params.wf(),
    ensures
        crate::json::ordered(definition(plan)),
{
    reveal_with_fuel(crate::json::ordered, 2);
    reveal_with_fuel(crate::json::text_before, 2);
    reveal_strlit("fields");
    reveal_strlit("inBackground");
    reveal_strlit("name");
    reveal_strlit("params");
    reveal_strlit("type");
    reveal_strlit("metric");
    reveal_strlit("dimension");
    reveal_strlit("trainingIterations");
    let fixed = JsonView::Object(fixed_params(plan));
    assert(fixed->Object_0 == fixed_params(plan));
    assert(crate::json::text_before("dimension"@, "metric"@));
    assert(crate::json::text_before("metric"@, "trainingIterations"@));
    assert(crate::json::text_before("dimension"@, "trainingIterations"@));
    assert(crate::json::ordered(fixed));
    lemma_with_params_ordered(fixed_params(plan), plan.params, plan.params@.len());
    let params = JsonView::Object(definition_params(plan));
    assert(crate::json::ordered(params));
    let fields = JsonView::Array(seq![JsonView::Text("vector"@)]);
    assert(crate::json::ordered(fields)) by {
        assert(fields->Array_0[0] == JsonView::Text("vector"@));
    }
    let entries = definition(plan)->Object_0;
    assert(crate::json::keys_ascend(entries));
    assert forall|i: int| 0 <= i < entries.len() implies crate::json::ordered(
        (#[trigger] entries[i]).1,
    ) by {
        if i == 0 {
            assert(entries[i].1 == fields);
        } else if i == 3 {
            assert(entries[i].1 == params);
        }
    }
}

proof fn lemma_with_params_ordered(
    entries: Seq<(Seq<char>, JsonView)>,
    params: Params,
    n: nat,
)
    requires
        crate::json::ordered(JsonView::Object(entries)),
        params.wf(),
        n <= params@.len(),
    ensures
        crate::json::ordered(JsonView::Object(with_params(entries, params@, n))),
    decreases n,
{
    if n > 0 {
        lemma_with_params_ordered(entries, params, (n - 1) as nat);
        let (key, value) = params@[n - 1];
        assert(crate::params::is_scalar(value));
        assert(crate::json::ordered(value));
        crate::json::lemma_put_ordered(with_params(entries, params@, (n - 1) as nat), key, value);
    }
}

} // verus!
