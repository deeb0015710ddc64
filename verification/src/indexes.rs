//! What the server tells of the indexes of a collection.

use crate::json::{Json, JsonView};
use crate::query::is_vector_index;
use crate::text::{push_dec, push_right_padded, same_text};
use vstd::prelude::*;
use vstd::string::*;

verus! {

// ---------------------------------------------------------------------------
// Finding an index
// ---------------------------------------------------------------------------

/// The name of an index.
pub open spec fn index_name(idx: JsonView) -> Option<Seq<char>> {
    crate::json::as_str(crate::json::member(idx, "name"@))
}

/// The type of an index.
pub open spec fn index_type(idx: JsonView) -> Option<Seq<char>> {
    crate::json::as_str(crate::json::member(idx, "type"@))
}

/// The indexes in a listing.
pub open spec fn listed(listing: JsonView) -> Option<Seq<JsonView>> {
    crate::json::as_array(crate::json::member(listing, "indexes"@))
}

/// The position of the first index with the name `name` at or after `from`, or the length of
/// the list.
pub open spec fn named_at(list: Seq<JsonView>, name: Seq<char>, from: int) -> int
    decreases list.len() - from,
{
    if from >= list.len() || index_name(list[from]) == Some(name) {
        from
    } else {
        named_at(list, name, from + 1)
    }
}

/// The position of the first vector index at or after `from`, or the length of the list.
pub open spec fn vector_at(list: Seq<JsonView>, from: int) -> int
    decreases list.len() - from,
{
    if from >= list.len() || crate::query::is_benchable(index_type(list[from])) {
        from
    } else {
        vector_at(list, from + 1)
    }
}

/// The item at a position, where the position is in the list.
pub open spec fn item_at(list: Seq<JsonView>, i: int) -> Option<JsonView> {
    if 0 <= i < list.len() {
        Some(list[i])
    } else {
        None
    }
}

/// The first index with the name `name`.
pub fn find_named<'a>(list: &'a Vec<Json>, name: &str) -> (res: Option<&'a Json>)
    ensures
        ({
            let all = crate::json::json_views(list@);
            match res {
                Some(idx) => item_at(all, named_at(all, name@, 0)) == Some(idx@),
                None => item_at(all, named_at(all, name@, 0)) is None,
            }
        }),
{
    let ghost all = crate::json::json_views(list@);
    for i in 0..list.len()
        invariant
            all == crate::json::json_views(list@),
            named_at(all, name@, 0) == named_at(all, name@, i as int),
    {
        assert(all[i as int] == list@[i as int]@);
        if let Some(n) = list[i].get_str("name") {
            if same_text(n, name) {
                return Some(&list[i]);
            }
        }
    }
    None
}

/// The first vector index.
pub fn find_vector_index(list: &Vec<Json>) -> (res: Option<&Json>)
    ensures
        ({
            let all = crate::json::json_views(list@);
            match res {
                Some(idx) => item_at(all, vector_at(all, 0)) == Some(idx@),
                None => item_at(all, vector_at(all, 0)) is None,
            }
        }),
{
    let ghost all = crate::json::json_views(list@);
    for i in 0..list.len()
        invariant
            all == crate::json::json_views(list@),
            vector_at(all, 0) == vector_at(all, i as int),
    {
        assert(all[i as int] == list@[i as int]@);
        if is_vector_index(list[i].get_str("type")) {
            return Some(&list[i]);
        }
    }
    None
}

proof fn lemma_named_at(list: Seq<JsonView>, name: Seq<char>, from: int)
    requires
        0 <= from <= list.len(),
    ensures
        from <= named_at(list, name, from) <= list.len(),
        forall|i: int|
            from <= i < named_at(list, name, from) ==> index_name(#[trigger] list[i]) != Some(name),
        named_at(list, name, from) < list.len() ==> index_name(list[named_at(list, name, from)])
            == Some(name),
    decreases list.len() - from,
{
    if from < list.len() && index_name(list[from]) != Some(name) {
        lemma_named_at(list, name, from + 1);
    }
}

/// The index that is found under a name has that name and is the first that has, and there is
/// one to be found wherever the list holds one.
pub proof fn law_find_named(list: Seq<JsonView>, name: Seq<char>)
    ensures
        item_at(list, named_at(list, name, 0)) matches Some(idx) ==> index_name(idx) == Some(name),
        item_at(list, named_at(list, name, 0)) is None ==> forall|i: int|
            0 <= i < list.len() ==> index_name(#[trigger] list[i]) != Some(name),
        item_at(list, named_at(list, name, 0)) matches Some(idx) ==> exists|i: int|
            0 <= i < list.len() && #[trigger] list[i] == idx && forall|j: int|
                0 <= j < i ==> index_name(#[trigger] list[j]) != Some(name),
{
    lemma_named_at(list, name, 0);
    if let Some(idx) = item_at(list, named_at(list, name, 0)) {
        assert(list[named_at(list, name, 0)] == idx);
    }
}

/// An index of one of the two vector types, `vector` and `vector-graph`.
pub open spec fn of_vector_type(idx: JsonView) -> bool {
    ||| crate::json::as_str(crate::json::member(idx, "type"@)) == Some("vector"@)
    ||| crate::json::as_str(crate::json::member(idx, "type"@)) == Some("vector-graph"@)
}

proof fn lemma_vector_at(list: Seq<JsonView>, from: int)
    requires
        0 <= from <= list.len(),
    ensures
        from <= vector_at(list, from) <= list.len(),
        forall|i: int| from <= i < vector_at(list, from) ==> !of_vector_type(#[trigger] list[i]),
        vector_at(list, from) < list.len() ==> of_vector_type(list[vector_at(list, from)]),
    decreases list.len() - from,
{
    if from < list.len() && !of_vector_type(list[from]) {
        lemma_vector_at(list, from + 1);
    }
}

/// The index that is found where no name is given is the first of a vector type, and there is
/// one to be found wherever the list holds one.
pub proof fn law_find_vector(list: Seq<JsonView>)
    ensures
        item_at(list, vector_at(list, 0)) matches Some(idx) ==> of_vector_type(idx)
            && exists|i: int|
            0 <= i < list.len() && #[trigger] list[i] == idx && forall|j: int|
                0 <= j < i ==> !of_vector_type(#[trigger] list[j]),
        item_at(list, vector_at(list, 0)) is None ==> forall|i: int|
            0 <= i < list.len() ==> !of_vector_type(#[trigger] list[i]),
{
    lemma_vector_at(list, 0);
    if let Some(idx) = item_at(list, vector_at(list, 0)) {
        assert(list[vector_at(list, 0)] == idx);
    }
}

// ---------------------------------------------------------------------------
// Readiness
// ---------------------------------------------------------------------------

/// The training state that an index, or a shard of it, reports.
pub open spec fn training_state(v: JsonView) -> Option<Seq<char>> {
    crate::json::as_str(crate::json::member(v, "trainingState"@))
}

/// The shards of an index.
pub open spec fn shards_of(idx: JsonView) -> Option<Seq<(Seq<char>, JsonView)>> {
    crate::json::as_object(crate::json::member(idx, "shards"@))
}

/// An index is ready where it reports so itself, or, where it reports nothing, where all of
/// its shards report so.
pub open spec fn ready(idx: JsonView) -> bool {
    match training_state(idx) {
        Some(state) => state == "ready"@,
        None => match shards_of(idx) {
            Some(shards) => forall|i: int|
                0 <= i < shards.len() ==> training_state((#[trigger] shards[i]).1) == Some(
                    "ready"@,
                ),
            None => false,
        },
    }
}

/// Whether an index is ready.
pub fn is_ready(idx: &Json) -> (res: bool)
    ensures
        res == ready(idx@),
{
    if let Some(state) = idx.get_str("trainingState") {
        return same_text(state, "ready");
    }
    if let Some(shards) = idx.get_object("shards") {
        let ghost all = crate::json::entry_views(shards@);
        for i in 0..shards.len()
            invariant
                all == crate::json::entry_views(shards@),
                training_state(idx@) is None,
                shards_of(idx@) == Some(all),
                forall|k: int|
                    0 <= k < i ==> training_state((#[trigger] all[k]).1) == Some("ready"@),
        {
            assert(all[i as int].1 == shards@[i as int].1@);
            match shards[i].1.get_str("trainingState") {
                Some(state) => if !same_text(state, "ready") {
                    return false;
                },
                None => {
                    return false;
                },
            }
        }
        return true;
    }
    false
}

/// What a listing says of the index `name`; `None` where it is no listing.
pub open spec fn listing_ready(listing: JsonView, name: Seq<char>) -> Option<bool> {
    match listed(listing) {
        Some(list) => Some(
            match item_at(list, named_at(list, name, 0)) {
                Some(idx) => ready(idx),
                None => false,
            },
        ),
        None => None,
    }
}

/// Whether a listing shows the index `name` as ready; `None` where it is no listing.
pub fn shows_ready(listing: &Json, name: &str) -> (res: Option<bool>)
    ensures
        res == listing_ready(listing@, name@),
{
    match listing.get_array("indexes") {
        None => None,
        Some(list) => match find_named(list, name) {
            Some(idx) => Some(is_ready(idx)),
            None => Some(false),
        },
    }
}

/// What an index reports of its training decides, whatever its shards report; where it reports
/// nothing, one shard that is not ready holds it back, and without shards it is not ready.
pub proof fn law_readiness(idx: JsonView)
    ensures
        ({
            let own = crate::json::as_str(crate::json::member(idx, "trainingState"@));
            let shards = crate::json::as_object(crate::json::member(idx, "shards"@));
            &&& own == Some("ready"@) ==> ready(idx)
            &&& own is Some && own != Some("ready"@) ==> !ready(idx)
            &&& own is None && shards is None ==> !ready(idx)
            &&& own is None && shards is Some && !ready(idx) ==> exists|i: int|
                0 <= i < shards->0.len() && training_state((#[trigger] shards->0[i]).1) != Some(
                    "ready"@,
                )
            &&& own is None && shards is Some && ready(idx) ==> forall|i: int|
                0 <= i < shards->0.len() ==> crate::json::as_str(
                    crate::json::member((#[trigger] shards->0[i]).1, "trainingState"@),
                ) == Some("ready"@)
        }),
{
}

/// A listing shows an index as ready exactly where the first index with its name is ready.
pub proof fn law_listing_shows_the_named_index(listing: JsonView, name: Seq<char>)
    ensures
        match crate::json::as_array(crate::json::member(listing, "indexes"@)) {
            Some(list) => listing_ready(listing, name) == Some(
                exists|i: int|
                    0 <= i < list.len() && index_name(#[trigger] list[i]) == Some(name) && ready(
                        list[i],
                    ) && forall|j: int|
                        0 <= j < i ==> index_name(#[trigger] list[j]) != Some(name),
            ),
            None => listing_ready(listing, name) is None,
        },
{
    if let Some(list) = listed(listing) {
        lemma_named_at(list, name, 0);
        let at = named_at(list, name, 0);
        if at < list.len() && ready(list[at]) {
            assert(index_name(list[at]) == Some(name));
        }
    }
}

// ---------------------------------------------------------------------------
// nLists
// ---------------------------------------------------------------------------

/// The first shard's nLists, from the `from`-th shard on.
pub open spec fn shard_nlists(shards: Seq<(Seq<char>, JsonView)>, from: int) -> Option<u64>
    decreases shards.len() - from,
{
    if from >= shards.len() {
        None
    } else {
        match crate::json::as_u64(crate::json::member(shards[from].1, "resolvedNLists"@)) {
            Some(n) => Some(n),
            None => shard_nlists(shards, from + 1),
        }
    }
}

/// The nLists that the shards of an index report.
pub open spec fn sharded_nlists(idx: JsonView) -> Option<u64> {
    match shards_of(idx) {
        Some(shards) => shard_nlists(shards, 0),
        None => None,
    }
}

/// The nLists that an index reports as resolved.
pub open spec fn own_nlists(idx: JsonView) -> Option<u64> {
    crate::json::as_u64(crate::json::member(idx, "resolvedNLists"@))
}

/// The nLists that an index was asked for.
pub open spec fn asked_nlists(idx: JsonView) -> Option<u64> {
    crate::json::as_u64(crate::json::member(crate::json::member(idx, "params"@), "nLists"@))
}

/// The first of two answers.
pub open spec fn or_else(a: Option<u64>, b: Option<u64>) -> Option<u64> {
    match a {
        Some(n) => Some(n),
        None => b,
    }
}

/// The nLists under test: as asked for, else as resolved, else as the first shard reports.
pub open spec fn tested_nlists(idx: JsonView) -> Option<u64> {
    or_else(or_else(asked_nlists(idx), own_nlists(idx)), sharded_nlists(idx))
}

/// The nLists to show: as resolved, else as the first shard reports, else as asked for.
pub open spec fn shown_nlists(idx: JsonView) -> Option<u64> {
    or_else(or_else(own_nlists(idx), sharded_nlists(idx)), asked_nlists(idx))
}

proof fn lemma_shard_nlists(shards: Seq<(Seq<char>, JsonView)>, from: int)
    requires
        0 <= from <= shards.len(),
    ensures
        match shard_nlists(shards, from) {
            Some(n) => exists|i: int|
                from <= i < shards.len() && own_nlists((#[trigger] shards[i]).1) == Some(n)
                    && forall|j: int|
                    from <= j < i ==> own_nlists((#[trigger] shards[j]).1) is None,
            None => forall|j: int|
                from <= j < shards.len() ==> own_nlists((#[trigger] shards[j]).1) is None,
        },
    decreases shards.len() - from,
{
    if from < shards.len() {
        lemma_shard_nlists(shards, from + 1);
        match own_nlists(shards[from].1) {
            Some(n) => {
                assert(own_nlists(shards[from].1) == Some(n));
            },
            None => {
                if let Some(n) = shard_nlists(shards, from + 1) {
                    let i = choose|i: int|
                        from + 1 <= i < shards.len() && own_nlists((#[trigger] shards[i]).1)
                            == Some(n) && forall|j: int|
                            from + 1 <= j < i ==> own_nlists((#[trigger] shards[j]).1) is None;
                    assert(own_nlists(shards[i].1) == Some(n));
                }
            },
        }
    }
}

/// Of shards, the first that reports its nLists tells; none tells only where no shard reports.
pub proof fn law_first_shard_tells(idx: JsonView)
    ensures
        match (sharded_nlists(idx), crate::json::as_object(crate::json::member(idx, "shards"@))) {
            (Some(n), Some(shards)) => exists|i: int|
                0 <= i < shards.len() && own_nlists((#[trigger] shards[i]).1) == Some(n)
                    && forall|j: int|
                    0 <= j < i ==> own_nlists((#[trigger] shards[j]).1) is None,
            (None, Some(shards)) => forall|j: int|
                0 <= j < shards.len() ==> own_nlists((#[trigger] shards[j]).1) is None,
            (told, None) => told is None,
        },
{
    if let Some(shards) = shards_of(idx) {
        lemma_shard_nlists(shards, 0);
    }
}

/// A sweep goes by the nLists that was asked for before the one that was resolved; what is shown
/// is the resolved one before the one that was asked for. Both know one wherever the other does,
/// and where only one is known both are that one.
pub proof fn law_nlists_precedence(idx: JsonView)
    ensures
        ({
            let asked = crate::json::as_u64(
                crate::json::member(crate::json::member(idx, "params"@), "nLists"@),
            );
            let own = crate::json::as_u64(crate::json::member(idx, "resolvedNLists"@));
            let sharded = sharded_nlists(idx);
            &&& asked is Some ==> tested_nlists(idx) == asked
            &&& asked is None && own is Some ==> tested_nlists(idx) == own
            &&& asked is None && own is None ==> tested_nlists(idx) == sharded
            &&& own is Some ==> shown_nlists(idx) == own
            &&& own is None && sharded is Some ==> shown_nlists(idx) == sharded
            &&& own is None && sharded is None ==> shown_nlists(idx) == asked
            &&& tested_nlists(idx) is None <==> shown_nlists(idx) is None
        }),
{
}

/// The nLists that the shards of an index report. Cluster mode: resolvedNLists lives per
/// shard; the first shard that has it tells.
fn nlists_of_shards(idx: &Json) -> (res: Option<u64>)
    ensures
        res == sharded_nlists(idx@),
{
    match idx.get_object("shards") {
        None => None,
        Some(shards) => {
            let ghost all = crate::json::entry_views(shards@);
            for i in 0..shards.len()
                invariant
                    all == crate::json::entry_views(shards@),
                    shards_of(idx@) == Some(all),
                    shard_nlists(all, 0) == shard_nlists(all, i as int),
            {
                assert(all[i as int].1 == shards@[i as int].1@);
                if let Some(n) = shards[i].1.get_u64("resolvedNLists") {
                    return Some(n);
                }
            }
            None
        },
    }
}

/// The nLists that an index was asked for.
fn nlists_asked(idx: &Json) -> (res: Option<u64>)
    ensures
        res == asked_nlists(idx@),
{
    match idx.get("params") {
        Some(params) => params.get_u64("nLists"),
        None => None,
    }
}

/// The nLists under test: as asked for, else as resolved, else as the first shard reports.
pub fn resolve_nlists(idx: &Json) -> (res: Option<u64>)
    ensures
        res == tested_nlists(idx@),
{
    if let Some(n) = nlists_asked(idx) {
        return Some(n);
    }
    if let Some(n) = idx.get_u64("resolvedNLists") {
        return Some(n);
    }
    nlists_of_shards(idx)
}

/// The nLists to show: as resolved, else as the first shard reports, else as asked for.
fn nlists_to_show(idx: &Json) -> (res: Option<u64>)
    ensures
        res == shown_nlists(idx@),
{
    if let Some(n) = idx.get_u64("resolvedNLists") {
        return Some(n);
    }
    if let Some(n) = nlists_of_shards(idx) {
        return Some(n);
    }
    nlists_asked(idx)
}

// ---------------------------------------------------------------------------
// Stats
// ---------------------------------------------------------------------------

/// A text to show, or a question mark.
pub open spec fn text_or(v: JsonView) -> Seq<char> {
    match crate::json::as_str(v) {
        Some(t) => t,
        None => "?"@,
    }
}

/// A number to show, or a default.
pub open spec fn number_or(v: JsonView, default: u64) -> nat {
    match crate::json::as_u64(v) {
        Some(n) => n as nat,
        None => default as nat,
    }
}

/// A text to show, or a question mark.
fn or_mark(t: Option<&str>) -> (res: &str)
    ensures
        res@ == (match crate::json::opt_str(t) {
            Some(t) => t,
            None => "?"@,
        }),
{
    match t {
        Some(t) => t,
        None => "?",
    }
}

/// The nLists that was asked for, or `auto`.
pub open spec fn requested_text(params: JsonView) -> Seq<char> {
    match crate::json::as_u64(crate::json::member(params, "nLists"@)) {
        Some(n) => crate::text::dec(n as nat),
        None => "auto"@,
    }
}

/// The line of the resolved nLists, where it is known.
pub open spec fn resolved_line(idx: JsonView) -> Seq<char> {
    match shown_nlists(idx) {
        Some(n) => "  resolvedNLists:     "@ + crate::text::dec(n as nat) + "\n"@,
        None => ""@,
    }
}

/// The default number of probes: of the parameters, else of the index, else 1.
pub open spec fn default_nprobe(idx: JsonView) -> nat {
    match or_else(
        crate::json::as_u64(
            crate::json::member(crate::json::member(idx, "params"@), "defaultNProbe"@),
        ),
        crate::json::as_u64(crate::json::member(idx, "defaultNProbe"@)),
    ) {
        Some(n) => n as nat,
        None => 1,
    }
}

/// The training state of the first shard that reports one, from the `from`-th on, or a question
/// mark.
pub open spec fn shard_state(shards: Seq<(Seq<char>, JsonView)>, from: int) -> Seq<char>
    decreases shards.len() - from,
{
    if from >= shards.len() {
        "?"@
    } else {
        match training_state(shards[from].1) {
            Some(state) => state,
            None => shard_state(shards, from + 1),
        }
    }
}

proof fn lemma_shard_state(shards: Seq<(Seq<char>, JsonView)>, from: int)
    requires
        0 <= from <= shards.len(),
    ensures
        (exists|i: int|
            from <= i < shards.len() && training_state((#[trigger] shards[i]).1) == Some(
                shard_state(shards, from),
            ) && forall|j: int|
                from <= j < i ==> training_state((#[trigger] shards[j]).1) is None) || (
        shard_state(shards, from) == "?"@ && forall|j: int|
            from <= j < shards.len() ==> training_state((#[trigger] shards[j]).1) is None),
    decreases shards.len() - from,
{
    if from < shards.len() {
        lemma_shard_state(shards, from + 1);
        let shown = shard_state(shards, from);
        if training_state(shards[from].1) is Some {
            assert(training_state(shards[from].1) == Some(shown));
        } else if !(forall|j: int|
            from < j < shards.len() ==> training_state((#[trigger] shards[j]).1) is None) {
            let i = choose|i: int|
                from + 1 <= i < shards.len() && training_state((#[trigger] shards[i]).1) == Some(
                    shown,
                ) && forall|j: int|
                    from + 1 <= j < i ==> training_state((#[trigger] shards[j]).1) is None;
            assert(training_state(shards[i].1) == Some(shown));
        }
    }
}

/// The training state that is shown for shards is that of the first that reports one, or a
/// question mark where none does.
pub proof fn law_shown_state(shards: Seq<(Seq<char>, JsonView)>)
    ensures
        (exists|i: int|
            0 <= i < shards.len() && training_state((#[trigger] shards[i]).1) == Some(
                shard_state(shards, 0),
            ) && forall|j: int|
                0 <= j < i ==> training_state((#[trigger] shards[j]).1) is None) || (shard_state(
            shards,
            0,
        ) == "?"@ && forall|j: int|
            0 <= j < shards.len() ==> training_state((#[trigger] shards[j]).1) is None),
{
    lemma_shard_state(shards, 0);
}

/// The number of probes that a query uses by default: the one of the parameters wins over the
/// one of the index, and without either it is one.
pub proof fn law_default_probes(idx: JsonView)
    ensures
        ({
            let params = crate::json::member(idx, "params"@);
            let asked = crate::json::as_u64(crate::json::member(params, "defaultNProbe"@));
            let own = crate::json::as_u64(crate::json::member(idx, "defaultNProbe"@));
            &&& asked matches Some(n) ==> default_nprobe(idx) == n
            &&& asked is None ==> (own matches Some(n) ==> default_nprobe(idx) == n)
            &&& asked is None && own is None ==> default_nprobe(idx) == 1
        }),
{
}

/// The line of the training state, where the index or its shards report one.
pub open spec fn state_line(idx: JsonView) -> Seq<char> {
    match training_state(idx) {
        Some(state) => "  trainingState:      "@ + state + "\n"@,
        None => match shards_of(idx) {
            Some(shards) => "  trainingState:      "@ + shard_state(shards, 0) + " ("@
                + crate::text::dec(shards.len()) + " shards)\n"@,
            None => ""@,
        },
    }
}

/// The stats of an IVF index.
pub open spec fn ivf_stats(idx: JsonView) -> Seq<char> {
    let params = crate::json::member(idx, "params"@);
    "Vector index stats:\n  name:               "@ + text_or(crate::json::member(idx, "name"@))
        + "\n  metric:             "@ + text_or(crate::json::member(params, "metric"@))
        + "\n  dimension:          "@
        + crate::text::dec(number_or(crate::json::member(params, "dimension"@), 0))
        + "\n  nLists (requested): "@ + requested_text(params) + "\n"@ + resolved_line(idx)
        + "  trainingIterations: "@
        + crate::text::dec(number_or(crate::json::member(params, "trainingIterations"@), 0))
        + "\n  defaultNProbe:      "@ + crate::text::dec(default_nprobe(idx)) + "\n"@
        + state_line(idx)
}

/// The line of a figure, where the server reports it.
pub open spec fn figure_line(idx: JsonView, key: Seq<char>) -> Seq<char> {
    match crate::json::as_u64(crate::json::member(idx, key)) {
        Some(n) => "  "@ + crate::text::pad_right(key, 18) + ": "@ + crate::text::dec(n as nat)
            + "\n"@,
        None => ""@,
    }
}

/// The stats of a vector-graph index. It reports maxDegree/alpha instead of nLists/training;
/// segment figures are only present when the server includes them in the listing.
pub open spec fn graph_stats(idx: JsonView, alpha: Seq<char>) -> Seq<char> {
    let params = crate::json::member(idx, "params"@);
    "Vector-graph index stats:\n  name:               "@
        + text_or(crate::json::member(idx, "name"@)) + "\n  metric:             "@
        + text_or(crate::json::member(params, "metric"@)) + "\n  dimension:          "@
        + crate::text::dec(number_or(crate::json::member(params, "dimension"@), 0))
        + "\n  maxDegree (R):      "@
        + crate::text::dec(number_or(crate::json::member(params, "maxDegree"@), 0))
        + "\n  alpha:              "@ + alpha + "\n"@ + figure_line(idx, "segmentCount"@)
        + figure_line(idx, "encodedVectorCount"@) + figure_line(idx, "onDiskBytes"@)
}

/// What an index does not tell is shown as such: a text as a question mark, a figure as zero, and
/// an nLists that was not asked for as `auto`; what it tells is shown as it is.
pub proof fn law_what_is_told_is_shown(v: JsonView, default: u64)
    ensures
        v matches JsonView::Text(t) ==> text_or(v) == t,
        !(v is Text) ==> text_or(v) == "?"@,
        v matches JsonView::Unsigned(n) ==> number_or(v, default) == n,
        !(v is Unsigned) ==> number_or(v, default) == default,
        crate::json::member(v, "nLists"@) matches JsonView::Unsigned(n) ==> requested_text(v)
            == crate::text::dec(n as nat),
        !(crate::json::member(v, "nLists"@) is Unsigned) ==> requested_text(v) == "auto"@,
{
}

/// The stats of an IVF index name it and tell its metric, its dimension and the nLists that was
/// asked for, each by its own member; then, as far as they are known, the nLists that came of it,
/// the training and the default number of probes.
#[verifier::rlimit(40)]
pub proof fn law_ivf_stats(idx: JsonView)
    ensures
        ({
            let params = crate::json::member(idx, "params"@);
            let metric = text_or(crate::json::member(params, "metric"@));
            let dimension = number_or(crate::json::member(params, "dimension"@), 0);
            let training = number_or(crate::json::member(params, "trainingIterations"@), 0);
            let resolved = match shown_nlists(idx) {
                Some(n) => "  resolvedNLists:     "@ + crate::text::dec(n as nat) + "\n"@,
                None => Seq::empty(),
            };
            &&& crate::text::begins_with(
                ivf_stats(idx),
                "Vector index stats:\n  name:               "@ + text_or(
                    crate::json::member(idx, "name"@),
                ) + "\n  metric:             "@ + metric + "\n  dimension:          "@
                    + crate::text::dec(dimension) + "\n  nLists (requested): "@ + requested_text(
                    params,
                ) + "\n"@,
            )
            &&& crate::text::ends_in(
                ivf_stats(idx),
                resolved + "  trainingIterations: "@ + crate::text::dec(training)
                    + "\n  defaultNProbe:      "@ + crate::text::dec(default_nprobe(idx)) + "\n"@
                    + state_line(idx),
            )
        }),
{
    reveal_strlit("");
    let params = crate::json::member(idx, "params"@);
    let front = "Vector index stats:\n  name:               "@ + text_or(
        crate::json::member(idx, "name"@),
    ) + "\n  metric:             "@ + text_or(crate::json::member(params, "metric"@))
        + "\n  dimension:          "@ + crate::text::dec(
        number_or(crate::json::member(params, "dimension"@), 0),
    ) + "\n  nLists (requested): "@ + requested_text(params) + "\n"@;
    let resolved = match shown_nlists(idx) {
        Some(n) => "  resolvedNLists:     "@ + crate::text::dec(n as nat) + "\n"@,
        None => Seq::empty(),
    };
    assert(resolved =~= resolved_line(idx));
    let back = resolved + "  trainingIterations: "@ + crate::text::dec(
        number_or(crate::json::member(params, "trainingIterations"@), 0),
    ) + "\n  defaultNProbe:      "@ + crate::text::dec(default_nprobe(idx)) + "\n"@ + state_line(
        idx,
    );
    assert(ivf_stats(idx) =~= front + back);
    crate::text::lemma_pieces(front, back);
}

/// The training state that an index reports is shown before any of its shards; of shards their
/// number is shown too, and without either there is no such line.
pub proof fn law_state_line(idx: JsonView)
    ensures
        crate::json::member(idx, "trainingState"@) matches JsonView::Text(state) ==> state_line(idx)
            == "  trainingState:      "@ + state + "\n"@,
        !(crate::json::member(idx, "trainingState"@) is Text) && !(crate::json::member(
            idx,
            "shards"@,
        ) is Object) ==> state_line(idx) == ""@,
        !(crate::json::member(idx, "trainingState"@) is Text) ==> (crate::json::member(
            idx,
            "shards"@,
        ) matches JsonView::Object(shards) ==> state_line(idx) == "  trainingState:      "@
            + shard_state(shards, 0) + " ("@ + crate::text::dec(shards.len()) + " shards)\n"@),
{
}

/// The figure that an index reports under `key`, as a line, and nothing where it reports none.
pub open spec fn is_figure(idx: JsonView, key: Seq<char>, line: Seq<char>) -> bool {
    match crate::json::member(idx, key) {
        JsonView::Unsigned(n) => line == "  "@ + crate::text::pad_right(key, 18) + ": "@
            + crate::text::dec(n as nat) + "\n"@,
        _ => line == ""@,
    }
}

/// The stats of a vector-graph index name it and tell its metric, its dimension, its degree and
/// alpha, each by its own member, and then those of three figures that the server reports.
#[verifier::rlimit(40)]
pub proof fn law_graph_stats(idx: JsonView, alpha: Seq<char>)
    ensures
        ({
            let params = crate::json::member(idx, "params"@);
            let front = "Vector-graph index stats:\n  name:               "@ + text_or(
                crate::json::member(idx, "name"@),
            ) + "\n  metric:             "@ + text_or(crate::json::member(params, "metric"@))
                + "\n  dimension:          "@ + crate::text::dec(
                number_or(crate::json::member(params, "dimension"@), 0),
            ) + "\n  maxDegree (R):      "@ + crate::text::dec(
                number_or(crate::json::member(params, "maxDegree"@), 0),
            ) + "\n  alpha:              "@ + alpha + "\n"@;
            exists|a: Seq<char>, b: Seq<char>, c: Seq<char>| #[trigger]
                is_figure(idx, "segmentCount"@, a) && #[trigger] is_figure(
                    idx,
                    "encodedVectorCount"@,
                    b,
                ) && #[trigger] is_figure(idx, "onDiskBytes"@, c) && graph_stats(idx, alpha)
                    == front + a + b + c
        }),
{
    let a = figure_line(idx, "segmentCount"@);
    let b = figure_line(idx, "encodedVectorCount"@);
    let c = figure_line(idx, "onDiskBytes"@);
    assert(is_figure(idx, "segmentCount"@, a));
    assert(is_figure(idx, "encodedVectorCount"@, b));
    assert(is_figure(idx, "onDiskBytes"@, c));
}

/// The stats are those of the type of the index: of a vector-graph index by that type alone.
pub proof fn law_stats_are_of_the_type(idx: JsonView, alpha: Seq<char>)
    ensures
        crate::json::member(idx, "type"@) == JsonView::Text("vector-graph"@) ==> stats_text(
            idx,
            alpha,
        ) == graph_stats(idx, alpha),
        crate::json::member(idx, "type"@) != JsonView::Text("vector-graph"@) ==> stats_text(
            idx,
            alpha,
        ) == ivf_stats(idx),
        crate::json::as_number(
            crate::json::member(crate::json::member(idx, "params"@), "alpha"@),
        ) matches Some(t) ==> alpha_of(idx) == t,
        crate::json::as_number(
            crate::json::member(crate::json::member(idx, "params"@), "alpha"@),
        ) is None ==> alpha_of(idx) == "0"@,
{
}

/// Whether an index is a vector-graph index.
pub open spec fn is_graph(idx: JsonView) -> bool {
    index_type(idx) == Some("vector-graph"@)
}

/// The training state to show for shards that report theirs.
fn state_of_shards(shards: &Vec<(String, Json)>) -> (res: String)
    ensures
        res@ == shard_state(crate::json::entry_views(shards@), 0),
{
    let ghost all = crate::json::entry_views(shards@);
    for i in 0..shards.len()
        invariant
            all == crate::json::entry_views(shards@),
            shard_state(all, 0) == shard_state(all, i as int),
    {
        assert(all[i as int].1 == shards@[i as int].1@);
        if let Some(state) = shards[i].1.get_str("trainingState") {
            return state.to_owned();
        }
    }
    "?".to_owned()
}

/// The member `params` of an index; `Null` where it has none.
fn params_of(idx: &Json) -> (res: Json)
    ensures
        res@ == crate::json::member(idx@, "params"@),
{
    match idx.get("params") {
        Some(params) => params.copy(),
        None => Json::Null,
    }
}

/// The stats of an IVF index.
pub fn ivf_index_stats(idx: &Json) -> (res: String)
    ensures
        res@ == ivf_stats(idx@),
{
    let params = params_of(idx);
    let requested = match params.get_u64("nLists") {
        Some(n) => crate::text::dec_text(n),
        None => "auto".to_owned(),
    };
    let resolved = match nlists_to_show(idx) {
        Some(n) => {
            let mut line = "  resolvedNLists:     ".to_owned();
            push_dec(&mut line, n);
            line.append("\n");
            line
        },
        None => "".to_owned(),
    };
    let nprobe: u64 = match params.get_u64("defaultNProbe") {
        Some(n) => n,
        None => match idx.get_u64("defaultNProbe") {
            Some(n) => n,
            None => 1,
        },
    };
    let state = match idx.get_str("trainingState") {
        Some(state) => {
            let mut line = "  trainingState:      ".to_owned();
            line.append(state);
            line.append("\n");
            line
        },
        None => match idx.get_object("shards") {
            Some(shards) => {
                let mut line = "  trainingState:      ".to_owned();
                line.append(state_of_shards(shards).as_str());
                line.append(" (");
                push_dec(&mut line, shards.len() as u64);
                line.append(" shards)\n");
                line
            },
            None => "".to_owned(),
        },
    };
    let mut out = "Vector index stats:\n  name:               ".to_owned();
    out.append(or_mark(idx.get_str("name")));
    out.append("\n  metric:             ");
    out.append(or_mark(params.get_str("metric")));
    out.append("\n  dimension:          ");
    push_dec(&mut out, params.get_u64("dimension").unwrap_or(0));
    out.append("\n  nLists (requested): ");
    out.append(requested.as_str());
    out.append("\n");
    out.append(resolved.as_str());
    out.append("  trainingIterations: ");
    push_dec(&mut out, params.get_u64("trainingIterations").unwrap_or(0));
    out.append("\n  defaultNProbe:      ");
    push_dec(&mut out, nprobe);
    out.append("\n");
    out.append(state.as_str());
    out
}

/// The line of a figure, where the server reports it.
fn figure(idx: &Json, key: &str) -> (res: String)
    ensures
        res@ == figure_line(idx@, key@),
{
    match idx.get_u64(key) {
        Some(n) => {
            let mut line = "  ".to_owned();
            push_right_padded(&mut line, key, 18);
            line.append(": ");
            push_dec(&mut line, n);
            line.append("\n");
            line
        },
        None => "".to_owned(),
    }
}

/// The stats of a vector-graph index, with `alpha` as it is shown.
pub fn graph_index_stats(idx: &Json, alpha: &str) -> (res: String)
    ensures
        res@ == graph_stats(idx@, alpha@),
{
    let params = params_of(idx);
    let mut out = "Vector-graph index stats:\n  name:               ".to_owned();
    out.append(or_mark(idx.get_str("name")));
    out.append("\n  metric:             ");
    out.append(or_mark(params.get_str("metric")));
    out.append("\n  dimension:          ");
    push_dec(&mut out, params.get_u64("dimension").unwrap_or(0));
    out.append("\n  maxDegree (R):      ");
    push_dec(&mut out, params.get_u64("maxDegree").unwrap_or(0));
    out.append("\n  alpha:              ");
    out.append(alpha);
    out.append("\n");
    out.append(figure(idx, "segmentCount").as_str());
    out.append(figure(idx, "encodedVectorCount").as_str());
    out.append(figure(idx, "onDiskBytes").as_str());
    out
}

/// Why an index cannot be reported on.
pub enum ListError {
    /// The reply is no listing.
    NoIndexes,
    /// The listing does not hold the index.
    NotFound { name: String },
}

impl ListError {
    /// What the user is told.
    pub fn message(&self) -> (res: String)
        ensures
            res@ == (match *self {
                ListError::NoIndexes => "indexes missing"@,
                ListError::NotFound { name } => "vector index '"@ + name@
                    + "' not found after creation"@,
            }),
    {
        match self {
            ListError::NoIndexes => "indexes missing".to_owned(),
            ListError::NotFound { name } => {
                let mut out = "vector index '".to_owned();
                out.append(name.as_str());
                out.append("' not found after creation");
                out
            },
        }
    }
}

/// `res` is the index `name` in a listing, or why it cannot be reported on.
pub open spec fn is_created(
    listing: JsonView,
    name: Seq<char>,
    res: Result<&Json, ListError>,
) -> bool {
    match listed(listing) {
        None => res matches Err(ListError::NoIndexes),
        Some(list) => match item_at(list, named_at(list, name, 0)) {
            Some(idx) => res matches Ok(r) && r@ == idx,
            None => res matches Err(ListError::NotFound { name: n }) && n@ == name,
        },
    }
}

/// The index that is reported on has the name that was asked for and is in the listing; it is
/// reported as missing exactly where the listing holds none of that name.
pub proof fn law_created_index_is_listed(
    listing: JsonView,
    name: Seq<char>,
    res: Result<&Json, ListError>,
)
    requires
        is_created(listing, name, res),
    ensures
        (res matches Err(ListError::NoIndexes)) <==> !(crate::json::member(
            listing,
            "indexes"@,
        ) is Array),
        crate::json::member(listing, "indexes"@) matches JsonView::Array(list) ==> {
            &&& res matches Ok(r) ==> list.contains(r@) && index_name(r@) == Some(name)
            &&& res matches Err(ListError::NotFound { name: n }) ==> n@ == name
            &&& res is Ok <==> exists|i: int|
                0 <= i < list.len() && index_name(#[trigger] list[i]) == Some(name)
        },
{
    if let JsonView::Array(list) = crate::json::member(listing, "indexes"@) {
        law_find_named(list, name);
        if let Some(idx) = item_at(list, named_at(list, name, 0)) {
            assert(list.contains(list[named_at(list, name, 0)]));
        }
    }
}

/// The index `name` in a listing after it was created.
pub fn created_index<'a>(listing: &'a Json, name: &str) -> (res: Result<&'a Json, ListError>)
    ensures
        is_created(listing@, name@, res),
{
    match listing.get_array("indexes") {
        None => Err(ListError::NoIndexes),
        Some(list) => match find_named(list, name) {
            Some(idx) => Ok(idx),
            None => Err(ListError::NotFound { name: name.to_owned() }),
        },
    }
}

/// Whether an index is a vector-graph index.
pub fn is_graph_index(idx: &Json) -> (res: bool)
    ensures
        res == is_graph(idx@),
{
    match idx.get_str("type") {
        Some(t) => same_text(t, "vector-graph"),
        None => false,
    }
}

/// The alpha that a vector-graph index reports, in decimal; 0 where it reports none.
pub open spec fn alpha_of(idx: JsonView) -> Seq<char> {
    match crate::json::as_number(
        crate::json::member(crate::json::member(idx, "params"@), "alpha"@),
    ) {
        Some(t) => t,
        None => "0"@,
    }
}

/// The alpha that a vector-graph index reports, in decimal; 0 where it reports none.
pub fn index_alpha(idx: &Json) -> (res: String)
    ensures
        res@ == alpha_of(idx@),
{
    match params_of(idx).get_number("alpha") {
        Some(t) => t,
        None => "0".to_owned(),
    }
}

/// The stats of an index, with `alpha` as it is shown.
pub open spec fn stats_text(idx: JsonView, alpha: Seq<char>) -> Seq<char> {
    if is_graph(idx) {
        graph_stats(idx, alpha)
    } else {
        ivf_stats(idx)
    }
}

/// The stats of the index `name` in a listing after it was created, with `alpha` as it is
/// shown for a vector-graph index.
pub fn index_stats(listing: &Json, name: &str, alpha: &str) -> (res: Result<String, ListError>)
    ensures
        match listed(listing@) {
            None => res matches Err(ListError::NoIndexes),
            Some(list) => match item_at(list, named_at(list, name@, 0)) {
                Some(idx) => res matches Ok(text) && text@ == stats_text(idx, alpha@),
                None => res matches Err(ListError::NotFound { name: n }) && n@ == name@,
            },
        },
{
    match created_index(listing, name) {
        Err(e) => Err(e),
        Ok(idx) => Ok(
            if is_graph_index(idx) {
                graph_index_stats(idx, alpha)
            } else {
                ivf_index_stats(idx)
            },
        ),
    }
}

} // verus!
