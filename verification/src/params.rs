//! The tuning parameters of an index: their schema, their validation and their help text.

use crate::args::IndexType;
use crate::decimal::{parse_decimal, parse_u64, parse_word, Decimal};
use crate::json::{write_json, Json, JsonView};
use crate::text::{
    contains_text, join_texts, push_dec, push_right_padded, same_text,
};
use vstd::prelude::*;
use vstd::string::*;

verus! {

// ---------------------------------------------------------------------------
// The schema
// ---------------------------------------------------------------------------

/// A bound of a floating-point parameter: a whole number, and the outermost decimal number
/// whose nearest double is still that whole number.
#[derive(Clone, Copy)]
pub struct FloatBound {
    pub value: u64,
    pub edge: &'static str,
}

/// The value kind of an index parameter, used both to coerce the raw `--set`
/// string into the JSON type the server expects and to range-check it.
#[derive(Clone, Copy)]
pub enum ParamKind {
    /// Unsigned integer bounded to `[min, max]`.
    U64 { min: u64, max: u64 },
    /// Floating point bounded to `[min, max]`: the double nearest to the input is in range.
    Float { low: FloatBound, high: FloatBound },
    /// Free-form string (no range).
    Str,
}

/// One tunable index parameter: its wire name, value kind, the documented
/// server default shown in the plan banner (None renders as "auto"), and a
/// short help string. The schema is the single source of truth shared by CLI
/// validation, the plan banner, and the `ensureIndex` body.
#[derive(Clone, Copy)]
pub struct ParamSpec {
    pub key: &'static str,
    pub kind: ParamKind,
    pub default: Option<&'static str>,
    pub help: &'static str,
}

/// The parameters that an index type takes.
pub open spec fn schema(index_type: IndexType) -> Seq<ParamSpec> {
    match index_type {
        IndexType::Ivf => seq![
            ParamSpec {
                key: "nLists",
                kind: ParamKind::U64 { min: 1, max: u64::MAX },
                default: None,
                help: "number of IVF cells; server auto-selects (auto-sqrt) when unset",
            },
            ParamSpec {
                key: "factory",
                kind: ParamKind::Str,
                default: None,
                help: "FAISS index_factory string, e.g. \"IVF{}_HNSW32,PQ32x8\"",
            },
        ],
        IndexType::VectorGraph => seq![
            ParamSpec {
                key: "alpha",
                kind: ParamKind::Float {
                    low: FloatBound {
                        value: 1,
                        edge: "0.999999999999999944488848768742172978818416595458984375",
                    },
                    high: FloatBound {
                        value: 2,
                        edge: "2.0000000000000002220446049250313080847263336181640625",
                    },
                },
                default: Some("1.2"),
                help: "Vamana pruning slack",
            },
            ParamSpec {
                key: "maxDegree",
                kind: ParamKind::U64 { min: 1, max: 64 },
                default: Some("64"),
                help: "Vamana out-degree bound R",
            },
        ],
    }
}

/// The parameters that an index type takes.
pub fn param_schema(index_type: IndexType) -> (res: Vec<ParamSpec>)
    ensures
        res@ == schema(index_type),
{
    match index_type {
        IndexType::Ivf => vec![
            ParamSpec {
                key: "nLists",
                kind: ParamKind::U64 { min: 1, max: u64::MAX },
                default: None,
                help: "number of IVF cells; server auto-selects (auto-sqrt) when unset",
            },
            ParamSpec {
                key: "factory",
                kind: ParamKind::Str,
                default: None,
                help: "FAISS index_factory string, e.g. \"IVF{}_HNSW32,PQ32x8\"",
            },
        ],
        IndexType::VectorGraph => vec![
            ParamSpec {
                key: "alpha",
                kind: ParamKind::Float {
                    low: FloatBound {
                        value: 1,
                        edge: "0.999999999999999944488848768742172978818416595458984375",
                    },
                    high: FloatBound {
                        value: 2,
                        edge: "2.0000000000000002220446049250313080847263336181640625",
                    },
                },
                default: Some("1.2"),
                help: "Vamana pruning slack",
            },
            ParamSpec {
                key: "maxDegree",
                kind: ParamKind::U64 { min: 1, max: 64 },
                default: Some("64"),
                help: "Vamana out-degree bound R",
            },
        ],
    }
}

/// The first parameter of a list with the name `key`.
pub open spec fn spec_named(list: Seq<ParamSpec>, key: Seq<char>) -> Option<ParamSpec>
    decreases list.len(),
{
    if list.len() == 0 {
        None
    } else if list[0].key@ == key {
        Some(list[0])
    } else {
        spec_named(list.drop_first(), key)
    }
}

/// The parameter `key` of an index type, if it has one.
pub fn find_spec(index_type: IndexType, key: &str) -> (res: Option<ParamSpec>)
    ensures
        res == spec_named(schema(index_type), key@),
{
    let list = param_schema(index_type);
    assert(list@.skip(0) =~= list@);
    for i in 0..list.len()
        invariant
            list@ == schema(index_type),
            spec_named(list@, key@) == spec_named(list@.skip(i as int), key@),
    {
        assert(list@.skip(i as int).drop_first() =~= list@.skip(i + 1));
        if same_text(list[i].key, key) {
            return Some(list[i]);
        }
    }
    None
}

/// The name of an index type on the command line.
pub open spec fn kind_label(index_type: IndexType) -> Seq<char> {
    match index_type {
        IndexType::Ivf => "ivf"@,
        IndexType::VectorGraph => "vector-graph"@,
    }
}

/// Human-readable index-type label used in `--set` validation errors; the same
/// text `SetupPlan::kind_label` renders for the plan banner.
pub fn kind_label_of(index_type: IndexType) -> (res: &'static str)
    ensures
        res@ == kind_label(index_type),
{
    match index_type {
        IndexType::Ivf => "ivf",
        IndexType::VectorGraph => "vector-graph",
    }
}

/// The other index type.
pub open spec fn other_type(index_type: IndexType) -> IndexType {
    match index_type {
        IndexType::Ivf => IndexType::VectorGraph,
        IndexType::VectorGraph => IndexType::Ivf,
    }
}

/// A parameter with its help text, as errors list it.
pub open spec fn key_with_help(spec: ParamSpec) -> Seq<char> {
    spec.key@ + " ("@ + spec.help@ + ")"@
}

/// The valid `--set` keys for an index type, each with its help text.
pub open spec fn valid_keys_text(index_type: IndexType) -> Seq<char> {
    crate::text::joined(
        schema(index_type).map_values(|spec: ParamSpec| key_with_help(spec)),
        ", "@,
    )
}

/// The valid `--set` keys for an index type, each with its help text, for use
/// in validation errors so a typo shows what the real keys do.
pub fn valid_keys(index_type: IndexType) -> (res: String)
    ensures
        res@ == valid_keys_text(index_type),
{
    let list = param_schema(index_type);
    let mut parts: Vec<String> = Vec::new();
    for i in 0..list.len()
        invariant
            parts@.len() == i,
            forall|k: int| 0 <= k < i ==> (#[trigger] parts@[k])@ == key_with_help(list@[k]),
    {
        let mut part = list[i].key.to_owned();
        part.append(" (");
        part.append(list[i].help);
        part.append(")");
        parts.push(part);
    }
    assert(crate::text::texts(parts@) =~= list@.map_values(|spec: ParamSpec| key_with_help(spec)));
    join_texts(&parts, ", ")
}

// ---------------------------------------------------------------------------
// Errors
// ---------------------------------------------------------------------------

/// Why a set of `--set` parameters is refused. `raw` is the text that cannot be read as an
/// integer or a number; why it cannot is told by reading it.
pub enum ParamError {
    NotAnInteger { key: String, raw: String },
    TooSmall { key: String, min: u64, got: u64 },
    OutOfRange { key: String, min: u64, max: u64, got: u64 },
    NotANumber { key: String, raw: String },
    FloatOutOfRange { key: String, min: u64, max: u64, shown: String },
    OtherIndexType { key: String, index_type: IndexType },
    UnknownKey { key: String, index_type: IndexType },
    Repeated { key: String },
    FactoryNeedsLists,
}

/// Why a set of `--set` parameters is refused, with texts as sequences of characters.
pub enum ParamErrorView {
    NotAnInteger { key: Seq<char>, raw: Seq<char> },
    TooSmall { key: Seq<char>, min: u64, got: u64 },
    OutOfRange { key: Seq<char>, min: u64, max: u64, got: u64 },
    NotANumber { key: Seq<char>, raw: Seq<char> },
    FloatOutOfRange { key: Seq<char>, min: u64, max: u64, shown: Seq<char> },
    OtherIndexType { key: Seq<char>, index_type: IndexType },
    UnknownKey { key: Seq<char>, index_type: IndexType },
    Repeated { key: Seq<char> },
    FactoryNeedsLists,
}

impl View for ParamError {
    type V = ParamErrorView;

    open spec fn view(&self) -> ParamErrorView {
        match *self {
            ParamError::NotAnInteger { key, raw } => ParamErrorView::NotAnInteger {
                key: key@,
                raw: raw@,
            },
            ParamError::TooSmall { key, min, got } => ParamErrorView::TooSmall {
                key: key@,
                min,
                got,
            },
            ParamError::OutOfRange { key, min, max, got } => ParamErrorView::OutOfRange {
                key: key@,
                min,
                max,
                got,
            },
            ParamError::NotANumber { key, raw } => ParamErrorView::NotANumber {
                key: key@,
                raw: raw@,
            },
            ParamError::FloatOutOfRange { key, min, max, shown } => ParamErrorView::FloatOutOfRange {
                key: key@,
                min,
                max,
                shown: shown@,
            },
            ParamError::OtherIndexType { key, index_type } => ParamErrorView::OtherIndexType {
                key: key@,
                index_type,
            },
            ParamError::UnknownKey { key, index_type } => ParamErrorView::UnknownKey {
                key: key@,
                index_type,
            },
            ParamError::Repeated { key } => ParamErrorView::Repeated { key: key@ },
            ParamError::FactoryNeedsLists => ParamErrorView::FactoryNeedsLists,
        }
    }
}

/// What the user is told.
pub open spec fn param_message(e: ParamErrorView) -> Seq<char> {
    match e {
        ParamErrorView::NotAnInteger { key, .. } => "param '"@ + key + "' expects an integer"@,
        ParamErrorView::TooSmall { key, min, got } => "param '"@ + key + "' must be >= "@
            + crate::text::dec(min as nat) + ", got "@ + crate::text::dec(got as nat),
        ParamErrorView::OutOfRange { key, min, max, got } => "param '"@ + key + "' must be in ["@
            + crate::text::dec(min as nat) + ", "@ + crate::text::dec(max as nat) + "], got "@
            + crate::text::dec(got as nat),
        ParamErrorView::NotANumber { key, .. } => "param '"@ + key + "' expects a number"@,
        ParamErrorView::FloatOutOfRange { key, min, max, shown } => "param '"@ + key
            + "' must be in ["@ + crate::text::dec(min as nat) + ", "@ + crate::text::dec(
            max as nat,
        ) + "], got "@ + shown,
        ParamErrorView::OtherIndexType { key, index_type } => "'"@ + key + "' is a "@ + kind_label(
            other_type(index_type),
        ) + "-only param; you selected --index-type "@ + kind_label(index_type)
            + ". Valid keys: "@ + valid_keys_text(index_type),
        ParamErrorView::UnknownKey { key, index_type } => "unknown --set key '"@ + key
            + "' for --index-type "@ + kind_label(index_type) + ". Valid keys: "@
            + valid_keys_text(index_type),
        ParamErrorView::Repeated { key } => "--set key '"@ + key + "' given more than once"@,
        ParamErrorView::FactoryNeedsLists =>
            "a non-templated factory requires nLists set to the factory string's nlist; use the `{}` placeholder (e.g. \"IVF{}_HNSW32,PQ32x8\") to let the server auto-select nLists"@,
    }
}

impl ParamError {
    /// What the user is told.
    pub fn message(&self) -> (res: String)
        ensures
            res@ == param_message(self@),
    {
        match self {
            ParamError::NotAnInteger { key, raw: _ } => {
                let mut out = "param '".to_owned();
                out.append(key.as_str());
                out.append("' expects an integer");
                out
            },
            ParamError::TooSmall { key, min, got } => {
                let mut out = "param '".to_owned();
                out.append(key.as_str());
                out.append("' must be >= ");
                push_dec(&mut out, *min);
                out.append(", got ");
                push_dec(&mut out, *got);
                out
            },
            ParamError::OutOfRange { key, min, max, got } => {
                let mut out = "param '".to_owned();
                out.append(key.as_str());
                out.append("' must be in [");
                push_dec(&mut out, *min);
                out.append(", ");
                push_dec(&mut out, *max);
                out.append("], got ");
                push_dec(&mut out, *got);
                out
            },
            ParamError::NotANumber { key, raw: _ } => {
                let mut out = "param '".to_owned();
                out.append(key.as_str());
                out.append("' expects a number");
                out
            },
            ParamError::FloatOutOfRange { key, min, max, shown } => {
                let mut out = "param '".to_owned();
                out.append(key.as_str());
                out.append("' must be in [");
                push_dec(&mut out, *min);
                out.append(", ");
                push_dec(&mut out, *max);
                out.append("], got ");
                out.append(shown.as_str());
                out
            },
            ParamError::OtherIndexType { key, index_type } => {
                let mut out = "'".to_owned();
                out.append(key.as_str());
                out.append("' is a ");
                out.append(kind_label_of(other_of(*index_type)));
                out.append("-only param; you selected --index-type ");
                out.append(kind_label_of(*index_type));
                out.append(". Valid keys: ");
                out.append(valid_keys(*index_type).as_str());
                out
            },
            ParamError::UnknownKey { key, index_type } => {
                let mut out = "unknown --set key '".to_owned();
                out.append(key.as_str());
                out.append("' for --index-type ");
                out.append(kind_label_of(*index_type));
                out.append(". Valid keys: ");
                out.append(valid_keys(*index_type).as_str());
                out
            },
            ParamError::Repeated { key } => {
                let mut out = "--set key '".to_owned();
                out.append(key.as_str());
                out.append("' given more than once");
                out
            },
            ParamError::FactoryNeedsLists =>
                "a non-templated factory requires nLists set to the factory string's nlist; use the `{}` placeholder (e.g. \"IVF{}_HNSW32,PQ32x8\") to let the server auto-select nLists".to_owned(),
        }
    }
}

/// The other index type.
fn other_of(index_type: IndexType) -> (res: IndexType)
    ensures
        res == other_type(index_type),
{
    match index_type {
        IndexType::Ivf => IndexType::VectorGraph,
        IndexType::VectorGraph => IndexType::Ivf,
    }
}

// ---------------------------------------------------------------------------
// Coercion
// ---------------------------------------------------------------------------

/// The nearest double to `d` lies between the two bounds.
pub open spec fn within(
    d: crate::decimal::DecimalView,
    low: FloatBound,
    high: FloatBound,
) -> bool {
    &&& crate::decimal::read_decimal(low.edge@) matches Some(a) && crate::decimal::at_most(a, d)
    &&& crate::decimal::read_decimal(high.edge@) matches Some(b) && crate::decimal::at_most(d, b)
}

/// The text that `serde_json` gives the nearest double to `d`.
pub open spec fn double_text(d: crate::decimal::DecimalView) -> Seq<char> {
    crate::json::json_text(crate::json::json_number(crate::decimal::scientific(d)))
}

/// The nearest double to `d` as the user is shown it: written out, or as infinity where
/// `text`, which `serde_json` gave for it, is no number.
pub open spec fn shown_double(d: crate::decimal::DecimalView, text: Seq<char>) -> Seq<char> {
    match crate::decimal::read_decimal(text) {
        Some(x) => if crate::decimal::writes_out(x.exponent) {
            crate::decimal::positional(x)
        } else {
            text
        },
        None => if d.negative {
            "-inf"@
        } else {
            "inf"@
        },
    }
}

/// The JSON value of a raw `--set` value, in the type that the schema declares and in range.
pub open spec fn coerced(spec: ParamSpec, raw: Seq<char>) -> Result<JsonView, ParamErrorView> {
    match spec.kind {
        ParamKind::U64 { min, max } => match crate::decimal::read_u64(raw) {
            None => Err(ParamErrorView::NotAnInteger { key: spec.key@, raw }),
            Some(n) => if min <= n <= max {
                Ok(JsonView::Unsigned(n))
            } else if max == u64::MAX {
                Err(ParamErrorView::TooSmall { key: spec.key@, min, got: n })
            } else {
                Err(ParamErrorView::OutOfRange { key: spec.key@, min, max, got: n })
            },
        },
        ParamKind::Float { low, high } => match crate::decimal::read_decimal(raw) {
            Some(d) => if within(d, low, high) {
                Ok(JsonView::Float(crate::decimal::scientific(d)))
            } else {
                Err(
                    ParamErrorView::FloatOutOfRange {
                        key: spec.key@,
                        min: low.value,
                        max: high.value,
                        shown: shown_double(d, double_text(d)),
                    },
                )
            },
            None => match crate::decimal::read_word(raw) {
                Some(word) => Err(
                    ParamErrorView::FloatOutOfRange {
                        key: spec.key@,
                        min: low.value,
                        max: high.value,
                        shown: word,
                    },
                ),
                None => Err(ParamErrorView::NotANumber { key: spec.key@, raw }),
            },
        },
        ParamKind::Str => Ok(JsonView::Text(raw)),
    }
}

/// Whether the nearest double to `d` lies between the two bounds.
fn is_within(d: &Decimal, low: FloatBound, high: FloatBound) -> (res: bool)
    requires
        d.wf(),
    ensures
        res == within(d@, low, high),
{
    match (parse_decimal(low.edge), parse_decimal(high.edge)) {
        (Some(a), Some(b)) => a.is_at_most(d) && d.is_at_most(&b),
        _ => false,
    }
}

/// The nearest double to `d` as the user is shown it, where `text` is what `serde_json` gave.
pub fn show_double(d: &Decimal, text: &str) -> (res: String)
    ensures
        res@ == shown_double(d@, text@),
{
    match parse_decimal(text) {
        Some(x) => match x.positional_text() {
            Some(t) => t,
            None => text.to_owned(),
        },
        None => if d.negative {
            "-inf".to_owned()
        } else {
            "inf".to_owned()
        },
    }
}

/// A result with the view of its value and of its error.
pub open spec fn coerced_view(res: Result<Json, ParamError>) -> Result<JsonView, ParamErrorView> {
    match res {
        Ok(j) => Ok(j@),
        Err(e) => Err(e@),
    }
}

/// Coerce a raw `--set` value to the JSON type its schema declares, enforcing
/// the range. Returns a clear error the user can act on.
pub fn coerce_value(spec: &ParamSpec, raw: &str) -> (res: Result<Json, ParamError>)
    ensures
        coerced_view(res) == coerced(*spec, raw@),
{
    match spec.kind {
        ParamKind::U64 { min, max } => match parse_u64(raw) {
            None => Err(
                ParamError::NotAnInteger { key: spec.key.to_owned(), raw: raw.to_owned() },
            ),
            Some(n) => if n < min || n > max {
                if max == u64::MAX {
                    Err(ParamError::TooSmall { key: spec.key.to_owned(), min, got: n })
                } else {
                    Err(ParamError::OutOfRange { key: spec.key.to_owned(), min, max, got: n })
                }
            } else {
                Ok(Json::Unsigned(n))
            },
        },
        ParamKind::Float { low, high } => match parse_decimal(raw) {
            Some(d) => {
                let form = d.scientific_text();
                if is_within(&d, low, high) {
                    Ok(Json::Float(form))
                } else {
                    let text = write_json(&Json::Float(form));
                    Err(
                        ParamError::FloatOutOfRange {
                            key: spec.key.to_owned(),
                            min: low.value,
                            max: high.value,
                            shown: show_double(&d, text.as_str()),
                        },
                    )
                }
            },
            None => match parse_word(raw) {
                Some(word) => Err(
                    ParamError::FloatOutOfRange {
                        key: spec.key.to_owned(),
                        min: low.value,
                        max: high.value,
                        shown: word,
                    },
                ),
                None => Err(
                ParamError::NotANumber { key: spec.key.to_owned(), raw: raw.to_owned() },
            ),
            },
        },
        ParamKind::Str => Ok(Json::Text(raw.to_owned())),
    }
}

// ---------------------------------------------------------------------------
// Validation
// ---------------------------------------------------------------------------

/// Validated index parameters: no key occurs twice.
pub struct Params {
    pub entries: Vec<(String, Json)>,
}

impl View for Params {
    type V = Seq<(Seq<char>, JsonView)>;

    open spec fn view(&self) -> Seq<(Seq<char>, JsonView)> {
        crate::json::entry_views(self.entries@)
    }
}

/// The texts of a list of key and value.
pub open spec fn pairs(raw: Seq<(String, String)>) -> Seq<(Seq<char>, Seq<char>)> {
    raw.map_values(|p: (String, String)| (p.0@, p.1@))
}

/// A concrete factory string bakes in its own nlist, so it needs a matching
/// nLists; a templated factory (with `{}`) lets the server fill in the
/// resolved nLists, so nLists stays optional there.
pub open spec fn factory_has_lists(params: Seq<(Seq<char>, JsonView)>) -> bool {
    crate::json::lookup(params, "factory"@) matches Some(JsonView::Text(f)) ==> crate::text::occurs(
        f,
        "{}"@,
    ) || crate::json::lookup(params, "nLists"@) is Some
}

/// The outcome of taking the pairs from the `i`-th on, with `done` taken already.
pub open spec fn validated_from(
    index_type: IndexType,
    done: Seq<(Seq<char>, JsonView)>,
    raw: Seq<(Seq<char>, Seq<char>)>,
    i: int,
) -> Result<Seq<(Seq<char>, JsonView)>, ParamErrorView>
    decreases raw.len() - i,
{
    if i >= raw.len() {
        if factory_has_lists(done) {
            Ok(done)
        } else {
            Err(ParamErrorView::FactoryNeedsLists)
        }
    } else {
        let (key, value) = raw[i];
        match spec_named(schema(index_type), key) {
            None => if spec_named(schema(other_type(index_type)), key) is Some {
                Err(ParamErrorView::OtherIndexType { key, index_type })
            } else {
                Err(ParamErrorView::UnknownKey { key, index_type })
            },
            Some(spec) => match coerced(spec, value) {
                Err(e) => Err(e),
                Ok(v) => if crate::json::lookup(done, key) is Some {
                    Err(ParamErrorView::Repeated { key })
                } else {
                    validated_from(index_type, done.push((key, v)), raw, i + 1)
                },
            },
        }
    }
}

/// The outcome of validating `--set key=value` pairs for an index type.
pub open spec fn validated(index_type: IndexType, raw: Seq<(Seq<char>, Seq<char>)>) -> Result<
    Seq<(Seq<char>, JsonView)>,
    ParamErrorView,
> {
    validated_from(index_type, Seq::empty(), raw, 0)
}

/// A result with the view of its value and of its error.
pub open spec fn validated_view(res: Result<Params, ParamError>) -> Result<
    Seq<(Seq<char>, JsonView)>,
    ParamErrorView,
> {
    match res {
        Ok(p) => Ok(p@),
        Err(e) => Err(e@),
    }
}

/// The value is no array and no object.
pub open spec fn is_scalar(v: JsonView) -> bool {
    !(v is Array) && !(v is Object)
}

impl Params {
    /// Every value is a scalar, and no key occurs twice.
    pub open spec fn wf(&self) -> bool {
        &&& forall|i: int| 0 <= i < self@.len() ==> is_scalar((#[trigger] self@[i]).1)
        &&& forall|i: int, j: int|
            0 <= i < j < self@.len() ==> (#[trigger] self@[i]).0 != (#[trigger] self@[j]).0
    }

    /// No parameters.
    pub fn none() -> (res: Params)
        ensures
            res.wf(),
            res@ == Seq::<(Seq<char>, JsonView)>::empty(),
    {
        let res = Params { entries: Vec::new() };
        assert(res@ =~= Seq::<(Seq<char>, JsonView)>::empty());
        res
    }

    /// The value of the parameter `key`, if it is set.
    pub fn get(&self, key: &str) -> (res: Option<&Json>)
        ensures
            res matches Some(j) ==> crate::json::lookup(self@, key@) == Some(j@),
            res is None ==> crate::json::lookup(self@, key@) is None,
    {
        let ghost all = self@;
        assert(all.skip(0) =~= all);
        for i in 0..self.entries.len()
            invariant
                all == self@,
                crate::json::lookup(all, key@) == crate::json::lookup(all.skip(i as int), key@),
        {
            assert(all.skip(i as int)[0] == (
                self.entries@[i as int].0@,
                self.entries@[i as int].1@,
            ));
            assert(all.skip(i as int).drop_first() =~= all.skip(i + 1));
            if same_text(self.entries[i].0.as_str(), key) {
                return Some(&self.entries[i].1);
            }
        }
        None
    }

    /// Whether the parameter `key` is set.
    pub fn contains_key(&self, key: &str) -> (res: bool)
        ensures
            res == (crate::json::lookup(self@, key@) is Some),
    {
        self.get(key).is_some()
    }
}

/// Validate the raw `--set key=value` pairs against the index type's schema and
/// return the coerced params. Rejects unknown keys (pointing at the other
/// index type when the key belongs there), duplicate keys, and out-of-range or
/// mistyped values, and enforces the IVF factory/nLists relationship.
pub fn validate_params(index_type: IndexType, raw: &[(String, String)]) -> (res: Result<
    Params,
    ParamError,
>)
    ensures
        validated_view(res) == validated(index_type, pairs(raw@)),
        res matches Ok(params) ==> params.wf(),
{
    let mut params = Params::none();
    for i in 0..raw.len()
        invariant
            validated(index_type, pairs(raw@)) == validated_from(
                index_type,
                params@,
                pairs(raw@),
                i as int,
            ),
    {
        let key = raw[i].0.as_str();
        let value = raw[i].1.as_str();
        assert(pairs(raw@)[i as int] == (key@, value@));
        let spec = match find_spec(index_type, key) {
            Some(spec) => spec,
            None => {
                let key = key.to_owned();
                return Err(
                    if find_spec(other_of(index_type), key.as_str()).is_some() {
                        ParamError::OtherIndexType { key, index_type }
                    } else {
                        ParamError::UnknownKey { key, index_type }
                    },
                );
            },
        };
        let json = match coerce_value(&spec, value) {
            Ok(json) => json,
            Err(e) => {
                return Err(e);
            },
        };
        if params.contains_key(key) {
            return Err(ParamError::Repeated { key: key.to_owned() });
        }
        let ghost before = params@;
        let ghost v = json@;
        params.entries.push((key.to_owned(), json));
        assert(params@ =~= before.push((key@, v)));
    }
    let refused = match params.get("factory") {
        Some(Json::Text(f)) => !contains_text(f.as_str(), "{}") && !params.contains_key("nLists"),
        _ => false,
    };
    if refused {
        return Err(ParamError::FactoryNeedsLists);
    }
    proof {
        lemma_validated_from(index_type, Seq::empty(), pairs(raw@), 0);
        assert(acceptable(index_type, pairs(raw@), params@));
    }
    Ok(params)
}

// ---------------------------------------------------------------------------
// Help
// ---------------------------------------------------------------------------

/// The range of a parameter as the help shows it; an unbounded upper limit carries no useful
/// range.
pub open spec fn range_text(kind: ParamKind) -> Option<Seq<char>> {
    match kind {
        ParamKind::U64 { min, max } => if max != u64::MAX {
            Some(
                "["@ + crate::text::dec(min as nat) + ", "@ + crate::text::dec(max as nat) + "]"@,
            )
        } else {
            None
        },
        ParamKind::Float { low, high } => Some(
            "["@ + crate::text::dec(low.value as nat) + ".0, "@ + crate::text::dec(
                high.value as nat,
            ) + ".0]"@,
        ),
        ParamKind::Str => None,
    }
}

/// The trailing " [range] (server default X)" for a param's help line.
pub open spec fn help_suffix(spec: ParamSpec) -> Seq<char> {
    match (range_text(spec.kind), spec.default) {
        (Some(range), Some(default)) => ", "@ + range + " (server default "@ + default@ + ")"@,
        (Some(range), None) => ", "@ + range,
        (None, Some(default)) => " (server default "@ + default@ + ")"@,
        (None, None) => Seq::empty(),
    }
}

/// The range of a parameter as the help shows it.
fn range_of(kind: ParamKind) -> (res: Option<String>)
    ensures
        crate::json::opt_text(res) == range_text(kind),
{
    match kind {
        ParamKind::U64 { min, max } => if max != u64::MAX {
            let mut out = "[".to_owned();
            push_dec(&mut out, min);
            out.append(", ");
            push_dec(&mut out, max);
            out.append("]");
            Some(out)
        } else {
            None
        },
        ParamKind::Float { low, high } => {
            let mut out = "[".to_owned();
            push_dec(&mut out, low.value);
            out.append(".0, ");
            push_dec(&mut out, high.value);
            out.append(".0]");
            Some(out)
        },
        ParamKind::Str => None,
    }
}

/// The trailing " [range] (server default X)" for a param's help line, built
/// from its kind and documented default. Empty when neither applies.
pub fn spec_help_suffix(spec: &ParamSpec) -> (res: String)
    ensures
        res@ == help_suffix(*spec),
{
    match (range_of(spec.kind), spec.default) {
        (Some(range), Some(default)) => {
            let mut out = ", ".to_owned();
            out.append(range.as_str());
            out.append(" (server default ");
            out.append(default);
            out.append(")");
            out
        },
        (Some(range), None) => {
            let mut out = ", ".to_owned();
            out.append(range.as_str());
            out
        },
        (None, Some(default)) => {
            let mut out = " (server default ".to_owned();
            out.append(default);
            out.append(")");
            out
        },
        (None, None) => String::new(),
    }
}

/// The length of the longest key.
pub open spec fn key_width(list: Seq<ParamSpec>) -> nat
    decreases list.len(),
{
    if list.len() == 0 {
        0
    } else {
        let rest = key_width(list.drop_last());
        let last = list.last().key@.len();
        if last > rest {
            last
        } else {
            rest
        }
    }
}

/// The length of the longest key.
pub fn longest_key(list: &[ParamSpec]) -> (res: usize)
    ensures
        res == key_width(list@),
{
    let mut width: usize = 0;
    for i in 0..list.len()
        invariant
            width == key_width(list@.take(i as int)),
    {
        assert(list@.take(i + 1).drop_last() =~= list@.take(i as int));
        let len = list[i].key.unicode_len();
        if len > width {
            width = len;
        }
    }
    assert(list@.take(list@.len() as int) =~= list@);
    width
}

/// The help line of a parameter.
pub open spec fn help_line(spec: ParamSpec, width: nat) -> Seq<char> {
    "    "@ + crate::text::pad_right(spec.key@, width) + "  "@ + spec.help@ + help_suffix(spec)
        + "\n"@
}

/// The help lines of the parameters of a list, one after the other.
pub open spec fn help_lines(list: Seq<ParamSpec>, width: nat) -> Seq<char>
    decreases list.len(),
{
    if list.len() == 0 {
        Seq::empty()
    } else {
        help_lines(list.drop_last(), width) + help_line(list.last(), width)
    }
}

/// The help on the parameters of an index type.
pub open spec fn help_block(index_type: IndexType) -> Seq<char> {
    "  "@ + kind_label(index_type) + ":\n"@ + help_lines(
        schema(index_type),
        key_width(schema(index_type)),
    )
}

/// The help on `--set`.
pub open spec fn help_text() -> Seq<char> {
    "Index tuning parameter, repeatable: `--set alpha=1.4 --set maxDegree=48`.\n\nValid keys depend on --index-type:\n"@
        + help_block(IndexType::VectorGraph) + help_block(IndexType::Ivf)
        + "\nValues are validated and range-checked against the index type; unknown keys are rejected. Omitted params fall back to the server default."@
}

/// The help on the parameters of an index type.
fn help_of(index_type: IndexType) -> (res: String)
    ensures
        res@ == help_block(index_type),
{
    let list = param_schema(index_type);
    let width = longest_key(&list);
    let mut lines = String::new();
    assert(lines@ =~= help_lines(list@.take(0), width as nat));
    for i in 0..list.len()
        invariant
            lines@ == help_lines(list@.take(i as int), width as nat),
    {
        assert(list@.take(i + 1).drop_last() =~= list@.take(i as int));
        let mut line = "    ".to_owned();
        push_right_padded(&mut line, list[i].key, width);
        line.append("  ");
        line.append(list[i].help);
        line.append(spec_help_suffix(&list[i]).as_str());
        line.append("\n");
        lines.append(line.as_str());
    }
    assert(list@.take(list@.len() as int) =~= list@);
    let mut out = "  ".to_owned();
    out.append(kind_label_of(index_type));
    out.append(":\n");
    out.append(lines.as_str());
    out
}

/// The `--set` long-help text, rendered from the param schema so `--help` lists
/// exactly the keys `validate_params` accepts and can never drift from them.
pub fn params_help() -> (res: String)
    ensures
        res@ == help_text(),
{
    let mut out =
        "Index tuning parameter, repeatable: `--set alpha=1.4 --set maxDegree=48`.\n\nValid keys depend on --index-type:\n".to_owned();
    out.append(help_of(IndexType::VectorGraph).as_str());
    out.append(help_of(IndexType::Ivf).as_str());
    out.append(
        "\nValues are validated and range-checked against the index type; unknown keys are rejected. Omitted params fall back to the server default.",
    );
    out
}

// ---------------------------------------------------------------------------
// What holds of accepted parameters and of the help
// ---------------------------------------------------------------------------

/// The keys of a list of parameters.
pub open spec fn holds_key(params: Seq<(Seq<char>, JsonView)>, key: Seq<char>) -> bool {
    exists|i: int| 0 <= i < params.len() && (#[trigger] params[i]).0 == key
}

proof fn lemma_lookup_holds(params: Seq<(Seq<char>, JsonView)>, key: Seq<char>)
    ensures
        crate::json::lookup(params, key) is Some <==> holds_key(params, key),
    decreases params.len(),
{
    if params.len() > 0 {
        let rest = params.drop_first();
        lemma_lookup_holds(rest, key);
        if params[0].0 == key {
            assert(holds_key(params, key));
        } else {
            if holds_key(rest, key) {
                let i = choose|i: int| 0 <= i < rest.len() && (#[trigger] rest[i]).0 == key;
                assert(params[i + 1].0 == key);
            }
            if holds_key(params, key) {
                let i = choose|i: int| 0 <= i < params.len() && (#[trigger] params[i]).0 == key;
                assert(rest[i - 1].0 == key);
            }
        }
    }
}

/// `entry` is what a pair of key and value comes to.
pub open spec fn comes_to(
    index_type: IndexType,
    pair: (Seq<char>, Seq<char>),
    entry: (Seq<char>, JsonView),
) -> bool {
    &&& entry.0 == pair.0
    &&& spec_named(schema(index_type), pair.0) matches Some(spec) && coerced(spec, pair.1) == Ok::<
        JsonView,
        ParamErrorView,
    >(entry.1)
}

/// `raw` is a set of parameters that the index type takes: every key is one of its schema and
/// occurs once, every value is coerced and in range, and a concrete factory comes with nLists.
/// `params` are the coerced values, in the order of `raw`.
pub open spec fn acceptable(
    index_type: IndexType,
    raw: Seq<(Seq<char>, Seq<char>)>,
    params: Seq<(Seq<char>, JsonView)>,
) -> bool {
    &&& params.len() == raw.len()
    &&& forall|i: int|
        0 <= i < raw.len() ==> comes_to(index_type, raw[i], #[trigger] params[i])
    &&& forall|i: int, j: int|
        0 <= i < j < raw.len() ==> (#[trigger] params[i]).0 != (#[trigger] params[j]).0
    &&& factory_has_lists(params)
}

proof fn lemma_validated_from(
    index_type: IndexType,
    done: Seq<(Seq<char>, JsonView)>,
    raw: Seq<(Seq<char>, Seq<char>)>,
    i: int,
)
    requires
        0 <= i <= raw.len(),
        done.len() == i,
        forall|k: int| 0 <= k < i ==> comes_to(index_type, raw[k], #[trigger] done[k]),
        forall|k: int, m: int|
            0 <= k < m < i ==> (#[trigger] done[k]).0 != (#[trigger] done[m]).0,
    ensures
        validated_from(index_type, done, raw, i) matches Ok(params) ==> acceptable(
            index_type,
            raw,
            params,
        ),
    decreases raw.len() - i,
{
    if i < raw.len() {
        let (key, value) = raw[i];
        if let Some(spec) = spec_named(schema(index_type), key) {
            if let Ok(v) = coerced(spec, value) {
                lemma_lookup_holds(done, key);
                if !(crate::json::lookup(done, key) is Some) {
                    let next = done.push((key, v));
                    assert forall|k: int, m: int| 0 <= k < m < i + 1 implies (#[trigger] next[k]).0
                        != (#[trigger] next[m]).0 by {
                        if m == i {
                            assert(done[k] == next[k]);
                        } else {
                            assert(done[k] == next[k] && done[m] == next[m]);
                        }
                    }
                    assert forall|k: int| 0 <= k < i + 1 implies comes_to(
                        index_type,
                        raw[k],
                        #[trigger] next[k],
                    ) by {
                        if k < i {
                            assert(done[k] == next[k]);
                        }
                    }
                    lemma_validated_from(index_type, next, raw, i + 1);
                }
            }
        }
    }
}

proof fn lemma_acceptable_from(
    index_type: IndexType,
    raw: Seq<(Seq<char>, Seq<char>)>,
    params: Seq<(Seq<char>, JsonView)>,
    i: int,
)
    requires
        acceptable(index_type, raw, params),
        0 <= i <= raw.len(),
    ensures
        validated_from(index_type, params.take(i), raw, i) == Ok::<
            Seq<(Seq<char>, JsonView)>,
            ParamErrorView,
        >(params),
    decreases raw.len() - i,
{
    let done = params.take(i);
    if i < raw.len() {
        assert(params[i].0 == raw[i].0);
        lemma_lookup_holds(done, raw[i].0);
        if holds_key(done, raw[i].0) {
            let k = choose|k: int| 0 <= k < done.len() && (#[trigger] done[k]).0 == raw[i].0;
            assert(params[k] == done[k]);
            assert(params[k].0 != params[i].0);
        }
        assert(done.push((raw[i].0, params[i].1)) =~= params.take(i + 1));
        lemma_acceptable_from(index_type, raw, params, i + 1);
    } else {
        assert(done =~= params);
    }
}

/// Validation accepts exactly the acceptable sets of parameters, and hands out their coerced
/// values: only keys of the index type's schema, each once, each in range, and a concrete
/// factory only together with nLists.
pub proof fn law_accepted_params(
    index_type: IndexType,
    raw: Seq<(Seq<char>, Seq<char>)>,
    params: Seq<(Seq<char>, JsonView)>,
)
    ensures
        validated(index_type, raw) == Ok::<Seq<(Seq<char>, JsonView)>, ParamErrorView>(params)
            <==> acceptable(index_type, raw, params),
{
    lemma_validated_from(index_type, Seq::empty(), raw, 0);
    if acceptable(index_type, raw, params) {
        lemma_acceptable_from(index_type, raw, params, 0);
        assert(params.take(0) =~= Seq::empty());
    }
}

/// The key is one of the index type's schema.
pub open spec fn is_key_of(index_type: IndexType, key: Seq<char>) -> bool {
    exists|i: int|
        0 <= i < schema(index_type).len() && (#[trigger] schema(index_type)[i]).key@ == key
}

proof fn lemma_spec_named(list: Seq<ParamSpec>, key: Seq<char>)
    ensures
        match spec_named(list, key) {
            Some(spec) => spec.key@ == key && exists|i: int|
                0 <= i < list.len() && #[trigger] list[i] == spec,
            None => forall|i: int| 0 <= i < list.len() ==> (#[trigger] list[i]).key@ != key,
        },
    decreases list.len(),
{
    if list.len() > 0 {
        let rest = list.drop_first();
        lemma_spec_named(rest, key);
        if list[0].key@ == key {
            assert(list[0] == spec_named(list, key)->0);
        } else {
            match spec_named(rest, key) {
                Some(spec) => {
                    let i = choose|i: int| 0 <= i < rest.len() && #[trigger] rest[i] == spec;
                    assert(list[i + 1] == spec);
                },
                None => {
                    assert forall|i: int| 0 <= i < list.len() implies (#[trigger] list[i]).key@
                        != key by {
                        if i > 0 {
                            assert(rest[i - 1] == list[i]);
                        }
                    }
                },
            }
        }
    }
}

/// A parameter is found under its own name, and one is found for every name of the schema.
pub proof fn law_params_are_found_by_name(index_type: IndexType, key: Seq<char>)
    ensures
        match spec_named(schema(index_type), key) {
            Some(spec) => spec.key@ == key && schema(index_type).contains(spec),
            None => !is_key_of(index_type, key),
        },
        other_type(index_type) != index_type,
{
    lemma_spec_named(schema(index_type), key);
    if let Some(spec) = spec_named(schema(index_type), key) {
        let i = choose|i: int|
            0 <= i < schema(index_type).len() && #[trigger] schema(index_type)[i] == spec;
        assert(schema(index_type).contains(schema(index_type)[i]));
    }
}

/// An integer parameter takes the numerals of the numbers in its range, both ends included, and
/// gives the number; another number is refused with the range that it misses, and a text that
/// is no number as such. A free text is taken as it is.
pub proof fn law_integers_in_range(spec: ParamSpec, raw: Seq<char>, n: u64)
    ensures
        spec.kind matches ParamKind::U64 { min, max } ==> {
            let numeral = coerced(spec, crate::text::dec(n as nat));
            &&& min <= n <= max <==> numeral is Ok
            &&& numeral matches Ok(v) ==> v == JsonView::Unsigned(n)
            &&& coerced(spec, raw) matches Ok(v) ==> (v matches JsonView::Unsigned(m) && min <= m
                <= max && crate::decimal::read_u64(raw) == Some(m))
            &&& n < min || n > max ==> (numeral == Err::<JsonView, ParamErrorView>(
                ParamErrorView::TooSmall { key: spec.key@, min, got: n },
            ) <==> max == u64::MAX)
            &&& n < min || n > max ==> (numeral == Err::<JsonView, ParamErrorView>(
                ParamErrorView::OutOfRange { key: spec.key@, min, max, got: n },
            ) <==> max < u64::MAX)
            &&& crate::decimal::read_u64(raw) is None <==> coerced(spec, raw) == Err::<
                JsonView,
                ParamErrorView,
            >(ParamErrorView::NotAnInteger { key: spec.key@, raw })
        },
        spec.kind is Str ==> coerced(spec, raw) == Ok::<JsonView, ParamErrorView>(
            JsonView::Text(raw),
        ),
{
    crate::decimal::law_numerals_read_back(n, n);
}

/// A number parameter takes the decimal numbers from edge to edge and gives the number; one
/// outside, infinity and NaN are out of range, and any other text is no number.
pub proof fn law_numbers_in_range(spec: ParamSpec, raw: Seq<char>)
    ensures
        spec.kind matches ParamKind::Float { low, high } ==> {
            let number = crate::decimal::read_decimal(raw);
            let word = crate::decimal::read_word(raw);
            &&& coerced(spec, raw) is Ok <==> (number matches Some(d) && within(d, low, high))
            &&& coerced(spec, raw) matches Ok(v) ==> v == JsonView::Float(
                crate::decimal::scientific(number->0),
            )
            &&& number is None && word is None <==> coerced(spec, raw) == Err::<
                JsonView,
                ParamErrorView,
            >(ParamErrorView::NotANumber { key: spec.key@, raw })
            &&& coerced(spec, raw) matches Err(ParamErrorView::FloatOutOfRange {
                key,
                min,
                max,
                shown,
            }) ==> key == spec.key@ && min == low.value && max == high.value && (number is None
                ==> Some(shown) == word)
        },
{
}

/// `pair` is one of the pairs.
pub open spec fn given(raw: Seq<(Seq<char>, Seq<char>)>, pair: (Seq<char>, Seq<char>)) -> bool {
    exists|i: int| 0 <= i < raw.len() && #[trigger] raw[i] == pair
}

/// `key` is given with some value.
pub open spec fn key_given(raw: Seq<(Seq<char>, Seq<char>)>, key: Seq<char>) -> bool {
    exists|i: int| 0 <= i < raw.len() && (#[trigger] raw[i]).0 == key
}

/// `key` is given more than once.
pub open spec fn given_twice(raw: Seq<(Seq<char>, Seq<char>)>, key: Seq<char>) -> bool {
    exists|i: int, j: int|
        0 <= i < j < raw.len() && (#[trigger] raw[i]).0 == key && (#[trigger] raw[j]).0 == key
}

/// A refusal is to the point: a key that is named as unknown is one of neither index type, one
/// that is named as the other type's is a key of the other type alone, one that is named as
/// repeated was given twice, and a value that is refused was given for a key of the index type.
/// A factory is refused only where it has no place for nLists and none is given.
pub open spec fn is_fault_of(
    index_type: IndexType,
    raw: Seq<(Seq<char>, Seq<char>)>,
    e: ParamErrorView,
) -> bool {
    match e {
        ParamErrorView::UnknownKey { key, index_type: t } => t == index_type && key_given(raw, key)
            && !is_key_of(IndexType::Ivf, key) && !is_key_of(IndexType::VectorGraph, key),
        ParamErrorView::OtherIndexType { key, index_type: t } => t == index_type && key_given(
            raw,
            key,
        ) && !is_key_of(index_type, key) && (is_key_of(IndexType::Ivf, key) || is_key_of(
            IndexType::VectorGraph,
            key,
        )),
        ParamErrorView::Repeated { key } => given_twice(raw, key) && is_key_of(index_type, key),
        ParamErrorView::FactoryNeedsLists => !key_given(raw, "nLists"@) && exists|f: Seq<char>|
            #[trigger] given(raw, ("factory"@, f)) && !crate::text::occurs(f, "{}"@),
        ParamErrorView::NotAnInteger { key, raw: value } => given(raw, (key, value)) && is_key_of(
            index_type,
            key,
        ) && crate::decimal::read_u64(value) is None,
        ParamErrorView::NotANumber { key, raw: value } => given(raw, (key, value)) && is_key_of(
            index_type,
            key,
        ) && crate::decimal::read_decimal(value) is None,
        ParamErrorView::TooSmall { key, min, got } => got < min && is_key_of(index_type, key)
            && exists|value: Seq<char>| #[trigger]
            given(raw, (key, value)) && crate::decimal::read_u64(value) == Some(got),
        ParamErrorView::OutOfRange { key, min, max, got } => (got < min || got > max) && is_key_of(
            index_type,
            key,
        ) && exists|value: Seq<char>| #[trigger]
            given(raw, (key, value)) && crate::decimal::read_u64(value) == Some(got),
        ParamErrorView::FloatOutOfRange { key, .. } => is_key_of(index_type, key) && key_given(
            raw,
            key,
        ),
    }
}

#[verifier::rlimit(40)]
proof fn lemma_fault_from(
    index_type: IndexType,
    done: Seq<(Seq<char>, JsonView)>,
    raw: Seq<(Seq<char>, Seq<char>)>,
    i: int,
)
    requires
        0 <= i <= raw.len(),
        done.len() == i,
        forall|k: int| 0 <= k < i ==> comes_to(index_type, raw[k], #[trigger] done[k]),
        forall|k: int, m: int|
            0 <= k < m < i ==> (#[trigger] done[k]).0 != (#[trigger] done[m]).0,
    ensures
        validated_from(index_type, done, raw, i) matches Err(e) ==> is_fault_of(index_type, raw, e),
    decreases raw.len() - i,
{
    if i < raw.len() {
        let (key, value) = raw[i];
        assert(raw[i] == (key, value));
        assert(given(raw, (key, value)));
        assert(key_given(raw, key));
        law_params_are_found_by_name(index_type, key);
        law_params_are_found_by_name(other_type(index_type), key);
        if let Some(spec) = spec_named(schema(index_type), key) {
            let at = choose|at: int|
                0 <= at < schema(index_type).len() && schema(index_type)[at] == spec;
            assert(schema(index_type)[at].key@ == key);
            assert(is_key_of(index_type, key));
            if let Ok(v) = coerced(spec, value) {
                lemma_lookup_holds(done, key);
                if crate::json::lookup(done, key) is Some {
                    let k = choose|k: int| 0 <= k < done.len() && (#[trigger] done[k]).0 == key;
                    assert(comes_to(index_type, raw[k], done[k]));
                    assert(raw[k].0 == key && raw[i].0 == key);
                    assert(given_twice(raw, key));
                } else {
                    let next = done.push((key, v));
                    assert forall|k: int, m: int| 0 <= k < m < i + 1 implies (#[trigger] next[k]).0
                        != (#[trigger] next[m]).0 by {
                        if m == i {
                            assert(done[k] == next[k]);
                        } else {
                            assert(done[k] == next[k] && done[m] == next[m]);
                        }
                    }
                    assert forall|k: int| 0 <= k < i + 1 implies comes_to(
                        index_type,
                        raw[k],
                        #[trigger] next[k],
                    ) by {
                        if k < i {
                            assert(done[k] == next[k]);
                        }
                    }
                    lemma_fault_from(index_type, next, raw, i + 1);
                }
            }
        } else if let Some(spec) = spec_named(schema(other_type(index_type)), key) {
            let other = schema(other_type(index_type));
            let at = choose|at: int| 0 <= at < other.len() && other[at] == spec;
            assert(other[at].key@ == key);
            assert(is_key_of(other_type(index_type), key));
        }
    } else if !factory_has_lists(done) {
        lemma_factory_fault(index_type, done, raw);
    }
}

proof fn lemma_factory_fault(
    index_type: IndexType,
    done: Seq<(Seq<char>, JsonView)>,
    raw: Seq<(Seq<char>, Seq<char>)>,
)
    requires
        done.len() == raw.len(),
        forall|k: int| 0 <= k < raw.len() ==> comes_to(index_type, raw[k], #[trigger] done[k]),
        !factory_has_lists(done),
    ensures
        is_fault_of(index_type, raw, ParamErrorView::FactoryNeedsLists),
{
    let f = crate::json::lookup(done, "factory"@)->0->Text_0;
    crate::json::law_member(JsonView::Object(done), "factory"@);
    let k = choose|k: int|
        0 <= k < done.len() && #[trigger] done[k] == ("factory"@, JsonView::Text(f));
    assert(comes_to(index_type, raw[k], done[k]));
    let spec = spec_named(schema(index_type), "factory"@)->0;
    assert(coerced(spec, raw[k].1) == Ok::<JsonView, ParamErrorView>(JsonView::Text(f)));
    assert(raw[k] == ("factory"@, f));
    assert(given(raw, ("factory"@, f)));
    lemma_lookup_holds(done, "nLists"@);
    if key_given(raw, "nLists"@) {
        let m = choose|m: int| 0 <= m < raw.len() && (#[trigger] raw[m]).0 == "nLists"@;
        assert(comes_to(index_type, raw[m], done[m]));
        assert(done[m].0 == "nLists"@);
    }
}

/// Whatever is refused is refused for a fault that it has.
pub proof fn law_refusals_are_to_the_point(
    index_type: IndexType,
    raw: Seq<(Seq<char>, Seq<char>)>,
)
    ensures
        validated(index_type, raw) matches Err(e) ==> is_fault_of(index_type, raw, e),
{
    lemma_fault_from(index_type, Seq::empty(), raw, 0);
}

/// A concrete factory is never accepted without nLists.
pub proof fn law_concrete_factory_needs_lists(
    index_type: IndexType,
    raw: Seq<(Seq<char>, Seq<char>)>,
    f: Seq<char>,
)
    requires
        given(raw, ("factory"@, f)),
        !crate::text::occurs(f, "{}"@),
        !key_given(raw, "nLists"@),
    ensures
        validated(index_type, raw) is Err,
{
    if let Ok(params) = validated(index_type, raw) {
        law_accepted_params(index_type, raw, params);
        let i = choose|i: int| 0 <= i < raw.len() && #[trigger] raw[i] == ("factory"@, f);
        assert(comes_to(index_type, raw[i], params[i]));
        lemma_factory_is_text(index_type);
        assert(params[i] == ("factory"@, JsonView::Text(f)));
        assert forall|j: int| 0 <= j < i implies (#[trigger] params[j]).0 != params[i].0 by {
        }
        crate::json::lemma_lookup_at(params, i);
        lemma_lookup_holds(params, "nLists"@);
        if holds_key(params, "nLists"@) {
            let k = choose|k: int| 0 <= k < params.len() && (#[trigger] params[k]).0 == "nLists"@;
            assert(comes_to(index_type, raw[k], params[k]));
            assert(raw[k].0 == "nLists"@);
        }
    }
}

proof fn lemma_factory_is_text(index_type: IndexType)
    ensures
        spec_named(schema(index_type), "factory"@) matches Some(spec) ==> spec.kind is Str,
{
    reveal_strlit("nLists");
    reveal_strlit("factory");
    reveal_strlit("alpha");
    reveal_strlit("maxDegree");
    assert("nLists"@.len() == 6 && "factory"@.len() == 7 && "alpha"@.len() == 5
        && "maxDegree"@.len() == 9);
    lemma_spec_named(schema(index_type), "factory"@);
}

/// Whatever holds the text of a part holds what the part holds.
proof fn lemma_occurs_inside(
    before: Seq<char>,
    part: Seq<char>,
    after: Seq<char>,
    pat: Seq<char>,
)
    requires
        crate::text::occurs(part, pat),
    ensures
        crate::text::occurs(before + part + after, pat),
{
    let i = choose|i: int| crate::text::stands_at(part, pat, i);
    let all = before + part + after;
    let at = before.len() + i;
    assert(all.subrange(at, at + pat.len()) =~= part.subrange(i, i + pat.len()));
    assert(crate::text::stands_at(all, pat, at));
}

proof fn lemma_line_shows_key(spec: ParamSpec, width: nat)
    ensures
        crate::text::occurs(help_line(spec, width), spec.key@),
        range_text(spec.kind) matches Some(range) ==> crate::text::occurs(
            help_line(spec, width),
            range,
        ),
{
    let line = help_line(spec, width);
    let padded = crate::text::pad_right(spec.key@, width);
    assert(padded.subrange(0, spec.key@.len() as int) =~= spec.key@);
    assert(crate::text::stands_at(padded, spec.key@, 0));
    let behind = "  "@ + spec.help@ + help_suffix(spec) + "\n"@;
    lemma_occurs_inside("    "@, padded, behind, spec.key@);
    assert(line =~= "    "@ + padded + behind);
    if let Some(range) = range_text(spec.kind) {
        let suffix = help_suffix(spec);
        assert(range.subrange(0, range.len() as int) =~= range);
        assert(crate::text::stands_at(range, range, 0));
        let rest = suffix.skip((", "@.len() + range.len()) as int);
        lemma_occurs_inside(", "@, range, rest, range);
        assert(suffix =~= ", "@ + range + rest);
        let front = "    "@ + padded + "  "@ + spec.help@;
        lemma_occurs_inside(front, suffix, "\n"@, range);
        assert(line =~= front + suffix + "\n"@);
    }
}

proof fn lemma_lines_show_key(list: Seq<ParamSpec>, width: nat, i: int)
    requires
        0 <= i < list.len(),
    ensures
        crate::text::occurs(help_lines(list, width), list[i].key@),
        range_text(list[i].kind) matches Some(range) ==> crate::text::occurs(
            help_lines(list, width),
            range,
        ),
    decreases list.len(),
{
    let front = help_lines(list.drop_last(), width);
    let line = help_line(list.last(), width);
    if i == list.len() - 1 {
        lemma_line_shows_key(list[i], width);
        lemma_occurs_inside(front, line, Seq::empty(), list[i].key@);
        if let Some(range) = range_text(list[i].kind) {
            lemma_occurs_inside(front, line, Seq::empty(), range);
        }
        assert(front + line + Seq::empty() =~= help_lines(list, width));
    } else {
        lemma_lines_show_key(list.drop_last(), width, i);
        assert(list.drop_last()[i] == list[i]);
        lemma_occurs_inside(Seq::empty(), front, line, list[i].key@);
        if let Some(range) = range_text(list[i].kind) {
            lemma_occurs_inside(Seq::empty(), front, line, range);
        }
        assert(Seq::empty() + front + line =~= help_lines(list, width));
    }
}

/// The help on `--set` shows every key that validation accepts, with its range.
pub proof fn law_help_lists_every_key(index_type: IndexType, i: int)
    requires
        0 <= i < schema(index_type).len(),
    ensures
        crate::text::occurs(help_text(), schema(index_type)[i].key@),
        range_text(schema(index_type)[i].kind) matches Some(range) ==> crate::text::occurs(
            help_text(),
            range,
        ),
{
    let list = schema(index_type);
    let width = key_width(list);
    let lines = help_lines(list, width);
    let key = list[i].key@;
    lemma_lines_show_key(list, width, i);
    let head =
        "Index tuning parameter, repeatable: `--set alpha=1.4 --set maxDegree=48`.\n\nValid keys depend on --index-type:\n"@;
    let tail =
        "\nValues are validated and range-checked against the index type; unknown keys are rejected. Omitted params fall back to the server default."@;
    let before = match index_type {
        IndexType::VectorGraph => head + ("  "@ + kind_label(index_type) + ":\n"@),
        IndexType::Ivf => head + help_block(IndexType::VectorGraph) + ("  "@ + kind_label(
            index_type,
        ) + ":\n"@),
    };
    let after = match index_type {
        IndexType::VectorGraph => help_block(IndexType::Ivf) + tail,
        IndexType::Ivf => tail,
    };
    assert(help_text() =~= before + lines + after);
    lemma_occurs_inside(before, lines, after, key);
    if let Some(range) = range_text(list[i].kind) {
        lemma_occurs_inside(before, lines, after, range);
    }
}

proof fn lemma_digits_end_at(s: Seq<char>, from: int, end: int)
    requires
        0 <= from <= end <= s.len(),
        forall|i: int| from <= i < end ==> crate::decimal::is_digit(#[trigger] s[i]),
        end < s.len() ==> !crate::decimal::is_digit(s[end]),
    ensures
        crate::decimal::digits_end(s, from) == end,
    decreases end - from,
{
    if from < end {
        lemma_digits_end_at(s, from + 1, end);
    }
}

/// Five more digits of a numeral.
proof fn lemma_take_five(s: Seq<char>, k: int)
    requires
        0 <= k,
        k + 5 <= s.len(),
    ensures
        crate::decimal::nat_of(s.take(k + 5)) == crate::decimal::nat_of(s.take(k)) * 100000
            + crate::decimal::digit_value(s[k]) * 10000 + crate::decimal::digit_value(s[k + 1])
            * 1000 + crate::decimal::digit_value(s[k + 2]) * 100 + crate::decimal::digit_value(
            s[k + 3],
        ) * 10 + crate::decimal::digit_value(s[k + 4]),
{
    assert(s.take(k + 1).drop_last() =~= s.take(k));
    assert(crate::decimal::nat_of(s.take(k + 1)) == crate::decimal::nat_of(s.take(k)) * 10
        + crate::decimal::digit_value(s[k]));
    assert(s.take(k + 2).drop_last() =~= s.take(k + 1));
    assert(crate::decimal::nat_of(s.take(k + 2)) == crate::decimal::nat_of(s.take(k + 1)) * 10
        + crate::decimal::digit_value(s[k + 1]));
    assert(s.take(k + 3).drop_last() =~= s.take(k + 2));
    assert(crate::decimal::nat_of(s.take(k + 3)) == crate::decimal::nat_of(s.take(k + 2)) * 10
        + crate::decimal::digit_value(s[k + 2]));
    assert(s.take(k + 4).drop_last() =~= s.take(k + 3));
    assert(crate::decimal::nat_of(s.take(k + 4)) == crate::decimal::nat_of(s.take(k + 3)) * 10
        + crate::decimal::digit_value(s[k + 3]));
    assert(s.take(k + 5).drop_last() =~= s.take(k + 4));
    assert(crate::decimal::nat_of(s.take(k + 5)) == crate::decimal::nat_of(s.take(k + 4)) * 10
        + crate::decimal::digit_value(s[k + 4]));
}

/// The longest key is as long as one of the keys, and none is longer.
pub proof fn law_longest_key(list: Seq<ParamSpec>)
    ensures
        forall|i: int| 0 <= i < list.len() ==> (#[trigger] list[i]).key@.len() <= key_width(list),
        list.len() > 0 ==> exists|i: int|
            0 <= i < list.len() && (#[trigger] list[i]).key@.len() == key_width(list),
        list.len() == 0 ==> key_width(list) == 0,
    decreases list.len(),
{
    if list.len() > 0 {
        let front = list.drop_last();
        law_longest_key(front);
        assert forall|i: int| 0 <= i < list.len() implies (#[trigger] list[i]).key@.len()
            <= key_width(list) by {
            if i < front.len() {
                assert(front[i] == list[i]);
            }
        }
        if key_width(list) == list.last().key@.len() {
            assert(list[list.len() - 1].key@.len() == key_width(list));
        } else {
            assert(front.len() > 0);
            let i = choose|i: int|
                0 <= i < front.len() && (#[trigger] front[i]).key@.len() == key_width(front);
            assert(list[i].key@.len() == key_width(list));
        }
    }
}

/// The help shows the range of a bounded integer as the list of its ends, and none of an
/// unbounded one or a text; the default is shown wherever there is one.
pub proof fn law_help_shows_range_and_default(spec: ParamSpec)
    ensures
        spec.kind matches ParamKind::U64 { min, max } ==> range_text(spec.kind) == (if max
            == u64::MAX {
            None
        } else {
            Some(crate::text::number_list(seq![min as nat, max as nat]))
        }),
        spec.kind is Str ==> range_text(spec.kind) is None,
        spec.default matches Some(d) ==> crate::text::ends_in(
            help_suffix(spec),
            " (server default "@ + d@ + ")"@,
        ),
        range_text(spec.kind) matches Some(range) ==> crate::text::begins_with(
            help_suffix(spec),
            ", "@ + range,
        ),
{
    if let ParamKind::U64 { min, max } = spec.kind {
        crate::text::law_number_lists(seq![min as nat], max as nat);
        assert(seq![min as nat].push(max as nat) =~= seq![min as nat, max as nat]);
        let one = crate::text::decs(seq![min as nat]);
        assert(one =~= seq![crate::text::dec(min as nat)]);
        crate::text::law_joined(one, one, crate::text::dec(min as nat), ", "@);
    }
    let suffix = help_suffix(spec);
    let range = match range_text(spec.kind) {
        Some(range) => ", "@ + range,
        None => Seq::empty(),
    };
    let default = match spec.default {
        Some(d) => " (server default "@ + d@ + ")"@,
        None => Seq::empty(),
    };
    assert(suffix =~= range + default);
    crate::text::lemma_pieces(range, default);
}

/// The edges of the pruning slack are those of its bounds: half a step of the doubles below the
/// low bound, and half a step above the high one.
pub proof fn law_edges_of_alpha()
    ensures
        spec_named(schema(IndexType::VectorGraph), "alpha"@) matches Some(spec) && (
        spec.kind matches ParamKind::Float { low, high } && {
            &&& low.value == 1 && high.value == 2
            &&& crate::decimal::read_decimal(low.edge@) matches Some(d) && !d.negative
                && d.exponent == -54 && crate::decimal::nat_of(d.digits) * 18014398509481984 == (
            low.value * 18014398509481984 - 1)
                * 1000000000000000000000000000000000000000000000000000000
            &&& crate::decimal::read_decimal(high.edge@) matches Some(d) && !d.negative
                && d.exponent == -52 && crate::decimal::nat_of(d.digits) * 4503599627370496 == (
            high.value * 4503599627370496 + 1)
                * 10000000000000000000000000000000000000000000000000000
        }),
{
    law_low_edge();
    law_high_edge();
}

/// Every decimal number from the low edge of a floating-point bound of 1 on has a nearest
/// double of at least 1: the edge is `1 - 2^-54`, half way to the greatest double below 1.
pub proof fn law_low_edge()
    ensures
        crate::decimal::read_decimal("0.999999999999999944488848768742172978818416595458984375"@) matches Some(d) && {
            &&& !d.negative
            &&& d.exponent == -54
            &&& crate::decimal::nat_of(d.digits) * 18014398509481984 == (18014398509481984 - 1)
                * 1000000000000000000000000000000000000000000000000000000
        },
{
    let lit = "0.999999999999999944488848768742172978818416595458984375"@;
    reveal_strlit("0.999999999999999944488848768742172978818416595458984375");
    lemma_digits_end_at(lit, 0, 1);
    lemma_digits_end_at(lit, 2, 56);
    let digits = lit.subrange(0, 1) + lit.subrange(2, 56);
    assert(digits.take(0) =~= Seq::empty());
    lemma_take_five(digits, 0);
    assert(crate::decimal::nat_of(digits.take(5)) == 9999);
    lemma_take_five(digits, 5);
    assert(crate::decimal::nat_of(digits.take(10)) == 999999999);
    lemma_take_five(digits, 10);
    assert(crate::decimal::nat_of(digits.take(15)) == 99999999999999);
    lemma_take_five(digits, 15);
    assert(crate::decimal::nat_of(digits.take(20)) == 9999999999999999444);
    lemma_take_five(digits, 20);
    assert(crate::decimal::nat_of(digits.take(25)) == 999999999999999944488848);
    lemma_take_five(digits, 25);
    assert(crate::decimal::nat_of(digits.take(30)) == 99999999999999994448884876874);
    lemma_take_five(digits, 30);
    assert(crate::decimal::nat_of(digits.take(35)) == 9999999999999999444888487687421729);
    lemma_take_five(digits, 35);
    assert(crate::decimal::nat_of(digits.take(40)) == 999999999999999944488848768742172978818);
    lemma_take_five(digits, 40);
    assert(crate::decimal::nat_of(digits.take(45)) == 99999999999999994448884876874217297881841659);
    lemma_take_five(digits, 45);
    assert(crate::decimal::nat_of(digits.take(50)) == 9999999999999999444888487687421729788184165954589);
    lemma_take_five(digits, 50);
    assert(crate::decimal::nat_of(digits.take(55)) == 999999999999999944488848768742172978818416595458984375);
    assert(digits.take(55) =~= digits);
}

/// Every decimal number up to the high edge of a floating-point bound of 2 has a nearest
/// double of at most 2: the edge is `2 + 2^-52`, half way to the least double above 2.
pub proof fn law_high_edge()
    ensures
        crate::decimal::read_decimal("2.0000000000000002220446049250313080847263336181640625"@) matches Some(d) && {
            &&& !d.negative
            &&& d.exponent == -52
            &&& crate::decimal::nat_of(d.digits) * 4503599627370496 == (2 * 4503599627370496 + 1)
                * 10000000000000000000000000000000000000000000000000000
        },
{
    let lit = "2.0000000000000002220446049250313080847263336181640625"@;
    reveal_strlit("2.0000000000000002220446049250313080847263336181640625");
    lemma_digits_end_at(lit, 0, 1);
    lemma_digits_end_at(lit, 2, 54);
    let digits = lit.subrange(0, 1) + lit.subrange(2, 54);
    assert(digits.take(0) =~= Seq::empty());
    lemma_take_five(digits, 0);
    assert(crate::decimal::nat_of(digits.take(5)) == 20000);
    lemma_take_five(digits, 5);
    assert(crate::decimal::nat_of(digits.take(10)) == 2000000000);
    lemma_take_five(digits, 10);
    assert(crate::decimal::nat_of(digits.take(15)) == 200000000000000);
    lemma_take_five(digits, 15);
    assert(crate::decimal::nat_of(digits.take(20)) == 20000000000000002220);
    lemma_take_five(digits, 20);
    assert(crate::decimal::nat_of(digits.take(25)) == 2000000000000000222044604);
    lemma_take_five(digits, 25);
    assert(crate::decimal::nat_of(digits.take(30)) == 200000000000000022204460492503);
    lemma_take_five(digits, 30);
    assert(crate::decimal::nat_of(digits.take(35)) == 20000000000000002220446049250313080);
    lemma_take_five(digits, 35);
    assert(crate::decimal::nat_of(digits.take(40)) == 2000000000000000222044604925031308084726);
    lemma_take_five(digits, 40);
    assert(crate::decimal::nat_of(digits.take(45)) == 200000000000000022204460492503130808472633361);
    lemma_take_five(digits, 45);
    assert(crate::decimal::nat_of(digits.take(50)) == 20000000000000002220446049250313080847263336181640);
    assert(digits.take(51).drop_last() =~= digits.take(50));
    assert(crate::decimal::nat_of(digits.take(51)) == 200000000000000022204460492503130808472633361816406);
    assert(digits.take(52).drop_last() =~= digits.take(51));
    assert(crate::decimal::nat_of(digits.take(52)) == 2000000000000000222044604925031308084726333618164062);
    assert(digits.take(53).drop_last() =~= digits.take(52));
    assert(crate::decimal::nat_of(digits.take(53)) == 20000000000000002220446049250313080847263336181640625);
    assert(digits.take(53) =~= digits);
}

} // verus!
