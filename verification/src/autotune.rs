//! The autotune feature of the IVF index: its operating points, and when it is run.

use crate::decimal::parse_double;
use crate::double::reach_limit;
use crate::json::{write_json, Json, JsonView};
use crate::text::{join_texts, push_dec, push_left_padded, push_right_padded};
use vstd::prelude::*;
use vstd::string::*;

verus! {

// ---------------------------------------------------------------------------
// Tables of operating points
// ---------------------------------------------------------------------------

/// The position of the first table for `top_k` at or after `from`, or the length of the list.
pub open spec fn table_at(tables: Seq<JsonView>, top_k: u64, from: int) -> int
    decreases tables.len() - from,
{
    if from >= tables.len() || crate::json::as_u64(crate::json::member(tables[from], "topK"@))
        == Some(top_k) {
        from
    } else {
        table_at(tables, top_k, from + 1)
    }
}

/// The table for `top_k` in a reply.
pub open spec fn table_for(v: JsonView, top_k: u64) -> Option<JsonView> {
    match crate::json::as_array(crate::json::member(v, "tunedTables"@)) {
        Some(tables) => crate::indexes::item_at(tables, table_at(tables, top_k, 0)),
        None => None,
    }
}

/// The autotune operating-point table for `top_k`, if present in the response.
pub fn autotune_table_for(v: &Json, top_k: usize) -> (res: Option<&Json>)
    ensures
        match res {
            Some(t) => table_for(v@, top_k as u64) == Some(t@),
            None => table_for(v@, top_k as u64) is None,
        },
{
    match v.get_array("tunedTables") {
        None => None,
        Some(tables) => {
            let ghost all = crate::json::json_views(tables@);
            for i in 0..tables.len()
                invariant
                    all == crate::json::json_views(tables@),
                    crate::json::as_array(crate::json::member(v@, "tunedTables"@)) == Some(all),
                    table_at(all, top_k as u64, 0) == table_at(all, top_k as u64, i as int),
            {
                assert(all[i as int] == tables@[i as int]@);
                if let Some(n) = tables[i].get_u64("topK") {
                    if n == top_k as u64 {
                        return Some(&tables[i]);
                    }
                }
            }
            None
        },
    }
}

proof fn lemma_table_at(tables: Seq<JsonView>, top_k: u64, from: int)
    requires
        0 <= from <= tables.len(),
    ensures
        from <= table_at(tables, top_k, from) <= tables.len(),
        table_at(tables, top_k, from) < tables.len() ==> crate::json::as_u64(
            crate::json::member(tables[table_at(tables, top_k, from)], "topK"@),
        ) == Some(top_k),
        forall|j: int|
            from <= j < table_at(tables, top_k, from) ==> crate::json::as_u64(
                crate::json::member(#[trigger] tables[j], "topK"@),
            ) != Some(top_k),
    decreases tables.len() - from,
{
    if from < tables.len() && crate::json::as_u64(crate::json::member(tables[from], "topK"@))
        != Some(top_k) {
        lemma_table_at(tables, top_k, from + 1);
    }
}

/// The table that is found for `top_k` is the first of the reply's tables whose member `topK` is
/// `top_k`; none is found only where the reply has no tables or none of them has that `topK`.
pub proof fn law_table_is_the_first_for_top_k(v: JsonView, top_k: u64)
    ensures
        match (table_for(v, top_k), crate::json::as_array(crate::json::member(v, "tunedTables"@))) {
            (Some(table), Some(tables)) => {
                &&& crate::json::as_u64(crate::json::member(table, "topK"@)) == Some(top_k)
                &&& exists|i: int|
                    0 <= i < tables.len() && #[trigger] tables[i] == table && forall|j: int|
                        0 <= j < i ==> crate::json::as_u64(
                            crate::json::member(#[trigger] tables[j], "topK"@),
                        ) != Some(top_k)
            },
            (Some(_), None) => false,
            (None, Some(tables)) => forall|j: int|
                0 <= j < tables.len() ==> crate::json::as_u64(
                    crate::json::member(#[trigger] tables[j], "topK"@),
                ) != Some(top_k),
            (None, None) => true,
        },
{
    if let Some(tables) = crate::json::as_array(crate::json::member(v, "tunedTables"@)) {
        lemma_table_at(tables, top_k, 0);
        let i = table_at(tables, top_k, 0);
        if i < tables.len() {
            assert(tables[i] == table_for(v, top_k)->0);
        }
    }
}

/// Tables for different cutoffs are different tables.
pub proof fn law_tables_of_different_cutoffs_differ(v: JsonView, a: u64, b: u64)
    requires
        table_for(v, a) is Some,
        a != b,
    ensures
        table_for(v, a) != table_for(v, b),
{
    law_table_is_the_first_for_top_k(v, a);
    law_table_is_the_first_for_top_k(v, b);
}

/// The points of a table.
pub open spec fn points_of(table: Option<JsonView>) -> Option<Seq<JsonView>> {
    match table {
        Some(t) => crate::json::as_array(crate::json::member(t, "points"@)),
        None => None,
    }
}

/// A number, in decimal, reaches the recall `target`: as doubles, it is at least the target less
/// 1e-9.
pub open spec fn reaches(number: Option<Seq<char>>, target: crate::decimal::DecimalView) -> bool {
    number matches Some(t) && crate::decimal::read_double(t) matches Some(d)
        && crate::double::reaches(d, target)
}

/// The recall of a point, in decimal.
pub open spec fn point_recall(point: JsonView) -> Option<Seq<char>> {
    crate::json::as_number(crate::json::member(point, "recall"@))
}

/// A table for `top_k` has a point that reaches the recall `target`.
pub open spec fn covers(v: JsonView, top_k: u64, target: Seq<char>) -> bool {
    points_of(table_for(v, top_k)) matches Some(points) && crate::decimal::read_double(target)
        matches Some(wanted) && exists|i: int|
        0 <= i < points.len() && reaches(point_recall(#[trigger] points[i]), wanted)
}

/// True if the table for `top_k` has at least one point reaching `target` recall, a number in
/// decimal.
pub fn autotune_table_covers(v: &Json, top_k: usize, target: &str) -> (res: bool)
    ensures
        res == covers(v@, top_k as u64, target@),
{
    let wanted = match parse_double(target) {
        Some(wanted) => wanted,
        None => {
            return false;
        },
    };
    let limit = reach_limit(&wanted);
    let table = match autotune_table_for(v, top_k) {
        Some(table) => table,
        None => {
            return false;
        },
    };
    match table.get_array("points") {
        None => false,
        Some(points) => {
            let ghost all = crate::json::json_views(points@);
            for i in 0..points.len()
                invariant
                    all == crate::json::json_views(points@),
                    points_of(table_for(v@, top_k as u64)) == Some(all),
                    crate::decimal::read_double(target@) == Some(wanted@),
                    limit.wf(),
                    forall|d: crate::decimal::DecimalView| #[trigger]
                        limit.met_by(d) == crate::double::reaches(d, wanted@),
                    forall|k: int|
                        0 <= k < i ==> !reaches(point_recall(#[trigger] all[k]), wanted@),
            {
                assert(all[i as int] == points@[i as int]@);
                if let Some(recall) = points[i].get_number("recall") {
                    if let Some(d) = parse_double(recall.as_str()) {
                        if limit.is_met_by(&d) {
                            return true;
                        }
                    }
                }
            }
            false
        },
    }
}

/// A table that covers a recall covers every lower one.
pub proof fn law_covers_lower_recalls(v: JsonView, top_k: u64, high: Seq<char>, low: Seq<char>)
    requires
        covers(v, top_k, high),
        crate::decimal::read_double(low) matches Some(l) && crate::decimal::read_double(high)
            matches Some(h) && crate::double::double_of(l).value() <= crate::double::double_of(
            h,
        ).value(),
    ensures
        covers(v, top_k, low),
{
    let points = points_of(table_for(v, top_k))->0;
    let l = crate::decimal::read_double(low)->0;
    let h = crate::decimal::read_double(high)->0;
    let i = choose|i: int| 0 <= i < points.len() && reaches(point_recall(#[trigger] points[i]), h);
    let d = crate::decimal::read_double(point_recall(points[i])->0)->0;
    crate::double::lemma_reaches_lower(d, h, l);
    assert(reaches(point_recall(points[i]), l));
}

// ---------------------------------------------------------------------------
// Showing them
// ---------------------------------------------------------------------------

/// The scalar members of a table up to the `n`-th, as `key=value`.
pub open spec fn scalars(entries: Seq<(Seq<char>, JsonView)>, n: nat) -> Seq<Seq<char>>
    decreases n,
{
    if n == 0 {
        Seq::empty()
    } else {
        let front = scalars(entries, (n - 1) as nat);
        let (key, value) = entries[n - 1];
        if crate::params::is_scalar(value) {
            front.push(
                key + "="@ + crate::json::json_text(crate::json::rendered(value)),
            )
        } else {
            front
        }
    }
}

/// The line with every scalar that the server reports on a table, where it reports one.
pub open spec fn scalars_line(table: Option<JsonView>) -> Seq<char> {
    match table {
        Some(JsonView::Object(entries)) => if scalars(entries, entries.len()).len() == 0 {
            ""@
        } else {
            "  Autotune params: "@ + crate::text::joined(
                scalars(entries, entries.len()),
                ", "@,
            ) + "\n"@
        },
        _ => ""@,
    }
}

/// The name of a point.
pub open spec fn point_key(point: JsonView) -> Seq<char> {
    crate::indexes::text_or(crate::json::member(point, "faissKey"@))
}

/// The line of a point, with its recall and its time in milliseconds as they are shown.
pub open spec fn point_line(key: Seq<char>, recall: Seq<char>, time: Seq<char>) -> Seq<char> {
    "    "@ + crate::text::pad_left(recall, 6) + "  | "@ + crate::text::pad_right(key, 16)
        + " | "@ + crate::text::pad_left(time, 7) + "\n"@
}

/// The lines of the first `n` points; `cells` are the recall and the time of each as they are
/// shown.
pub open spec fn point_lines(
    points: Seq<JsonView>,
    cells: Seq<(String, String)>,
    n: nat,
) -> Seq<char>
    decreases n,
{
    if n == 0 {
        Seq::empty()
    } else {
        point_lines(points, cells, (n - 1) as nat) + point_line(
            point_key(points[n - 1]),
            cells[n - 1].0@,
            cells[n - 1].1@,
        )
    }
}

/// The operating points of a reply as they are printed.
pub open spec fn operating_text(
    v: JsonView,
    top_k: u64,
    cells: Seq<(String, String)>,
) -> Seq<char> {
    let table = table_for(v, top_k);
    scalars_line(table) + (match points_of(table) {
        Some(points) => if points.len() == 0 {
            ""@
        } else {
            "  Operating points (topK="@ + crate::text::dec(top_k as nat)
                + "):\n    recall  | param            | time(ms)\n    --------|------------------|---------\n"@
                + point_lines(points, cells, points.len())
        },
        None => ""@,
    })
}

/// Every point has its line, with its own name, recall and time.
pub proof fn law_every_point_is_shown(
    points: Seq<JsonView>,
    cells: Seq<(String, String)>,
    n: nat,
    i: int,
)
    requires
        0 <= i < n,
    ensures
        crate::text::occurs(
            point_lines(points, cells, n),
            point_line(point_key(points[i]), cells[i].0@, cells[i].1@),
        ),
    decreases n,
{
    let front = point_lines(points, cells, (n - 1) as nat);
    let line = point_line(point_key(points[n - 1]), cells[n - 1].0@, cells[n - 1].1@);
    if i == n - 1 {
        assert(front + line + Seq::<char>::empty() =~= front + line);
        crate::text::lemma_middle(front, line, Seq::empty());
    } else {
        law_every_point_is_shown(points, cells, (n - 1) as nat, i);
        let pat = point_line(point_key(points[i]), cells[i].0@, cells[i].1@);
        let at = choose|at: int| crate::text::stands_at(front, pat, at);
        assert((front + line).subrange(at, at + pat.len()) =~= front.subrange(
            at,
            at + pat.len(),
        ));
        assert(crate::text::stands_at(front + line, pat, at));
    }
}

/// Without a table for the cutoff nothing is shown; without points nothing but its scalars; and
/// the points stand under a heading that names the cutoff.
pub proof fn law_operating_points_are_of_the_cutoff(
    v: JsonView,
    top_k: u64,
    cells: Seq<(String, String)>,
)
    ensures
        table_for(v, top_k) is None ==> operating_text(v, top_k, cells) == ""@,
        point_count(v, top_k) == 0 ==> operating_text(v, top_k, cells) == scalars_line(
            table_for(v, top_k),
        ),
        point_count(v, top_k) > 0 ==> crate::text::occurs(
            operating_text(v, top_k, cells),
            "  Operating points (topK="@ + crate::text::dec(top_k as nat) + "):\n"@,
        ) && crate::text::ends_in(
            operating_text(v, top_k, cells),
            point_lines(points_of(table_for(v, top_k))->0, cells, point_count(v, top_k)),
        ),
{
    reveal_strlit("");
    let table = table_for(v, top_k);
    let scalars = scalars_line(table);
    assert(scalars + ""@ =~= scalars);
    if point_count(v, top_k) > 0 {
        let points = points_of(table)->0;
        let lines = point_lines(points, cells, points.len());
        reveal_strlit("):\n");
        reveal_strlit(
            "):\n    recall  | param            | time(ms)\n    --------|------------------|---------\n",
        );
        reveal_strlit(
            "    recall  | param            | time(ms)\n    --------|------------------|---------\n",
        );
        let heading = "    recall  | param            | time(ms)\n    --------|------------------|---------\n"@;
        assert("):\n    recall  | param            | time(ms)\n    --------|------------------|---------\n"@
            =~= "):\n"@ + heading);
        let named = "  Operating points (topK="@ + crate::text::dec(top_k as nat) + "):\n"@;
        let text = operating_text(v, top_k, cells);
        assert(text =~= scalars + named + (heading + lines));
        crate::text::lemma_middle(scalars, named, heading + lines);
        assert(text =~= (scalars + named + heading) + lines);
        crate::text::lemma_pieces(scalars + named + heading, lines);
    }
}

/// The number of points that `operating_text` shows.
pub open spec fn point_count(v: JsonView, top_k: u64) -> nat {
    match points_of(table_for(v, top_k)) {
        Some(points) => points.len(),
        None => 0,
    }
}

/// The recall and the time in seconds of each operating point for `top_k`, in decimal, where
/// the server reports them.
pub fn operating_points(v: &Json, top_k: usize) -> (res: Vec<(Option<String>, Option<String>)>)
    ensures
        res@.len() == point_count(v@, top_k as u64),
        forall|i: int|
            0 <= i < res@.len() ==> {
                let point = points_of(table_for(v@, top_k as u64))->0[i];
                &&& crate::json::opt_text((#[trigger] res@[i]).0) == point_recall(point)
                &&& crate::json::opt_text(res@[i].1) == crate::json::as_number(
                    crate::json::member(point, "timeSeconds"@),
                )
            },
{
    let mut out: Vec<(Option<String>, Option<String>)> = Vec::new();
    if let Some(table) = autotune_table_for(v, top_k) {
        if let Some(points) = table.get_array("points") {
            let ghost all = crate::json::json_views(points@);
            for i in 0..points.len()
                invariant
                    all == crate::json::json_views(points@),
                    points_of(table_for(v@, top_k as u64)) == Some(all),
                    out@.len() == i,
                    forall|k: int|
                        0 <= k < i ==> {
                            &&& crate::json::opt_text((#[trigger] out@[k]).0) == point_recall(
                                all[k],
                            )
                            &&& crate::json::opt_text(out@[k].1) == crate::json::as_number(
                                crate::json::member(all[k], "timeSeconds"@),
                            )
                        },
            {
                assert(all[i as int] == points@[i as int]@);
                out.push((points[i].get_number("recall"), points[i].get_number("timeSeconds")));
            }
        }
    }
    out
}

/// The scalar members of a table, as `key=value`.
fn table_scalars(entries: &Vec<(String, Json)>) -> (res: Vec<String>)
    ensures
        crate::text::texts(res@) == scalars(
            crate::json::entry_views(entries@),
            entries@.len(),
        ),
{
    let ghost all = crate::json::entry_views(entries@);
    let mut parts: Vec<String> = Vec::new();
    assert(crate::text::texts(parts@) =~= scalars(all, 0));
    for i in 0..entries.len()
        invariant
            all == crate::json::entry_views(entries@),
            crate::text::texts(parts@) == scalars(all, i as nat),
    {
        assert(all[i as int] == (entries@[i as int].0@, entries@[i as int].1@));
        let scalar = match &entries[i].1 {
            Json::Array(_) => false,
            Json::Object(_) => false,
            _ => true,
        };
        if scalar {
            let ghost before = crate::text::texts(parts@);
            let mut part = entries[i].0.clone();
            part.append("=");
            part.append(write_json(&entries[i].1).as_str());
            parts.push(part);
            assert(crate::text::texts(parts@) =~= before.push(parts@.last()@));
        }
    }
    parts
}

/// The operating points of a reply as they are printed: every scalar param the server reports
/// on the table (topK, minRecall, defaultNprobe, ...), so the autotune config is visible, and
/// the points. `cells` are the recall and the time in milliseconds of each as they are shown.
pub fn operating_lines(v: &Json, top_k: usize, cells: &Vec<(String, String)>) -> (res: String)
    requires
        cells@.len() == point_count(v@, top_k as u64),
    ensures
        res@ == operating_text(v@, top_k as u64, cells@),
{
    let table = match autotune_table_for(v, top_k) {
        Some(table) => table,
        None => {
            let mut out = "".to_owned();
            out.append("");
            return out;
        },
    };
    let mut out = "".to_owned();
    proof {
        crate::json::lemma_view_parts(*table);
    }
    if let Some(entries) = table.as_object() {
        let parts = table_scalars(entries);
        if parts.len() > 0 {
            let mut line = "  Autotune params: ".to_owned();
            line.append(join_texts(&parts, ", ").as_str());
            line.append("\n");
            out = line;
        }
    }
    assert(out@ == scalars_line(table_for(v@, top_k as u64)));
    if let Some(points) = table.get_array("points") {
        if points.len() > 0 {
            let ghost all = crate::json::json_views(points@);
            let mut lines = String::new();
            assert(lines@ =~= point_lines(all, cells@, 0));
            for i in 0..points.len()
                invariant
                    all == crate::json::json_views(points@),
                    cells@.len() == points@.len(),
                    lines@ == point_lines(all, cells@, i as nat),
            {
                assert(all[i as int] == points@[i as int]@);
                let key = match points[i].get_str("faissKey") {
                    Some(key) => key,
                    None => "?",
                };
                let recall = cells[i].0.as_str();
                let time = cells[i].1.as_str();
                let mut line = "    ".to_owned();
                push_left_padded(&mut line, recall, 6);
                line.append("  | ");
                push_right_padded(&mut line, key, 16);
                line.append(" | ");
                push_left_padded(&mut line, time, 7);
                line.append("\n");
                lines.append(line.as_str());
            }
            let mut block = "  Operating points (topK=".to_owned();
            push_dec(&mut block, top_k as u64);
            block.append(
                "):\n    recall  | param            | time(ms)\n    --------|------------------|---------\n",
            );
            block.append(lines.as_str());
            out.append(block.as_str());
            return out;
        }
    }
    out.append("");
    out
}

// ---------------------------------------------------------------------------
// When autotune is run
// ---------------------------------------------------------------------------

/// What is to be done now to have the index tuned.
#[derive(Copy, Clone, Debug, PartialEq, Eq, Structural)]
pub enum TuneStep {
    /// Ask for the persisted table.
    AskForTable,
    /// Submit an autotune run.
    Submit,
    /// Wait a little.
    Pause,
    /// Ask whether the job has finished.
    Poll,
    /// Look whether there is time left to wait for the job.
    LookAtClock,
    /// Nothing: the persisted table covers the target.
    Covered,
    /// Nothing: autotune was run.
    Tuned,
    /// Nothing: the job did not finish in time.
    TimedOut,
    /// Nothing: a step failed.
    Failed,
}

/// What came of a step.
#[derive(Copy, Clone, Debug, PartialEq, Eq, Structural)]
pub enum TuneEvent {
    /// It was done.
    Done,
    /// A question was answered with yes or no: does the table cover the target, has the job
    /// finished, is there time left.
    Answer(bool),
    /// The run was accepted as a job.
    Job,
    /// It failed.
    Failure,
}

/// What is done first: a forced run is submitted at once.
pub open spec fn first_tune_step(force: bool) -> TuneStep {
    if force {
        TuneStep::Submit
    } else {
        TuneStep::AskForTable
    }
}

/// What is done next. Autotune is run where no persisted table covers the target, or none can
/// be had. It can run far longer than a single request, so it is submitted as a job, which is
/// polled until it finishes or the time is up.
pub open spec fn next_tune_step(step: TuneStep, event: TuneEvent) -> TuneStep {
    match (step, event) {
        (TuneStep::Covered, _) => TuneStep::Covered,
        (TuneStep::Tuned, _) => TuneStep::Tuned,
        (TuneStep::TimedOut, _) => TuneStep::TimedOut,
        (TuneStep::AskForTable, TuneEvent::Answer(yes)) => if yes {
            TuneStep::Covered
        } else {
            TuneStep::Submit
        },
        (TuneStep::AskForTable, TuneEvent::Failure) => TuneStep::Submit,
        (TuneStep::Submit, TuneEvent::Done) => TuneStep::Tuned,
        (TuneStep::Submit, TuneEvent::Job) => TuneStep::Pause,
        (TuneStep::Pause, TuneEvent::Done) => TuneStep::Poll,
        (TuneStep::Poll, TuneEvent::Answer(finished)) => if finished {
            TuneStep::Tuned
        } else {
            TuneStep::LookAtClock
        },
        (TuneStep::LookAtClock, TuneEvent::Answer(left)) => if left {
            TuneStep::Pause
        } else {
            TuneStep::TimedOut
        },
        _ => TuneStep::Failed,
    }
}

/// What is done first to have the index tuned.
pub fn tune_start(force: bool) -> (res: TuneStep)
    ensures
        res == first_tune_step(force),
{
    if force {
        TuneStep::Submit
    } else {
        TuneStep::AskForTable
    }
}

/// What is done next to have the index tuned.
pub fn tune_next(step: TuneStep, event: TuneEvent) -> (res: TuneStep)
    ensures
        res == next_tune_step(step, event),
{
    match (step, event) {
        (TuneStep::Covered, _) => TuneStep::Covered,
        (TuneStep::Tuned, _) => TuneStep::Tuned,
        (TuneStep::TimedOut, _) => TuneStep::TimedOut,
        (TuneStep::AskForTable, TuneEvent::Answer(yes)) => if yes {
            TuneStep::Covered
        } else {
            TuneStep::Submit
        },
        (TuneStep::AskForTable, TuneEvent::Failure) => TuneStep::Submit,
        (TuneStep::Submit, TuneEvent::Done) => TuneStep::Tuned,
        (TuneStep::Submit, TuneEvent::Job) => TuneStep::Pause,
        (TuneStep::Pause, TuneEvent::Done) => TuneStep::Poll,
        (TuneStep::Poll, TuneEvent::Answer(finished)) => if finished {
            TuneStep::Tuned
        } else {
            TuneStep::LookAtClock
        },
        (TuneStep::LookAtClock, TuneEvent::Answer(left)) => if left {
            TuneStep::Pause
        } else {
            TuneStep::TimedOut
        },
        _ => TuneStep::Failed,
    }
}

/// There is time left to wait.
pub open spec fn has_time(elapsed_sec: u64, timeout_sec: u64) -> bool {
    elapsed_sec < timeout_sec
}

/// There is time at the start of every wait that may take any, none once the whole of it has
/// passed, and once there is none there never is again.
pub proof fn law_time_runs_out(elapsed_sec: u64, later_sec: u64, timeout_sec: u64)
    requires
        elapsed_sec <= later_sec,
    ensures
        has_time(0, timeout_sec) <==> timeout_sec > 0,
        !has_time(timeout_sec, timeout_sec),
        timeout_sec > 0 ==> has_time((timeout_sec - 1) as u64, timeout_sec),
        !has_time(elapsed_sec, timeout_sec) ==> !has_time(later_sec, timeout_sec),
{
}

/// Whether there is time left to wait for a job.
pub fn time_left(elapsed_sec: u64, timeout_sec: u64) -> (res: bool)
    ensures
        res == has_time(elapsed_sec, timeout_sec),
{
    elapsed_sec < timeout_sec
}

/// `steps` are the steps that were taken to have the index tuned, `events[i]` came of
/// `steps[i]`.
pub open spec fn is_tuning(force: bool, steps: Seq<TuneStep>, events: Seq<TuneEvent>) -> bool {
    &&& steps.len() > 0
    &&& events.len() + 1 == steps.len()
    &&& steps[0] == first_tune_step(force)
    &&& forall|i: int|
        0 <= i < events.len() ==> steps[i + 1] == next_tune_step(steps[i], #[trigger] events[i])
}

/// Autotune is not run where the persisted table covers the target, unless it is forced; a
/// forced run neither asks for the table nor is skipped.
pub proof fn law_tuning_only_when_needed(
    force: bool,
    steps: Seq<TuneStep>,
    events: Seq<TuneEvent>,
    i: int,
)
    requires
        is_tuning(force, steps, events),
        0 <= i < steps.len(),
    ensures
        force ==> !(steps[i] is AskForTable) && !(steps[i] is Covered),
        !force && events.len() > 0 && events[0] == TuneEvent::Answer(true) ==> !(
        steps[i] is Submit),
        steps[i] is Covered ==> i > 0 && events[0] == TuneEvent::Answer(true),
        steps[i] is AskForTable ==> i == 0,
        steps[i] is Submit ==> i <= 1,
        i > 0 && steps[0] is AskForTable && events[0] == TuneEvent::Answer(true)
            ==> steps[i] is Covered,
    decreases i,
{
    if i > 0 {
        let p = i - 1;
        law_tuning_only_when_needed(force, steps, events, p);
        assert(steps[p + 1] == next_tune_step(steps[p], events[p]));
        if i == 2 {
            law_tuning_only_when_needed(force, steps, events, 0);
        }
    }
}

/// Every step has its reason in the one before: a run is submitted only where it is forced or
/// the table does not cover the target or cannot be had; the job is polled after each pause and
/// waited for while there is time; the index counts as tuned only when the run was answered at
/// once or its job has finished, and is given up only when the time is up.
pub proof fn law_tuning_steps_have_reasons(
    force: bool,
    steps: Seq<TuneStep>,
    events: Seq<TuneEvent>,
    i: int,
)
    requires
        is_tuning(force, steps, events),
        0 < i < steps.len(),
    ensures
        ({
            let step = steps[i - 1];
            let event = events[i - 1];
            &&& steps[0] is Submit <==> force
            &&& steps[0] is AskForTable <==> !force
            &&& steps[i] is Submit <==> step is AskForTable && (event == TuneEvent::Answer(false)
                || event == TuneEvent::Failure)
            &&& steps[i] is Covered <==> step is Covered || (step is AskForTable && event
                == TuneEvent::Answer(true))
            &&& steps[i] is Pause <==> (step is Submit && event == TuneEvent::Job) || (
            step is LookAtClock && event == TuneEvent::Answer(true))
            &&& steps[i] is Poll <==> step is Pause && event == TuneEvent::Done
            &&& steps[i] is LookAtClock <==> step is Poll && event == TuneEvent::Answer(false)
            &&& steps[i] is Tuned <==> step is Tuned || (step is Submit && event
                == TuneEvent::Done) || (step is Poll && event == TuneEvent::Answer(true))
            &&& steps[i] is TimedOut <==> step is TimedOut || (step is LookAtClock && event
                == TuneEvent::Answer(false))
        }),
{
    let p = i - 1;
    assert(steps[p + 1] == next_tune_step(steps[p], events[p]));
}

/// The reply covers a recall exactly where the first table for the cutoff has a point whose
/// recall, as a double, reaches it; so without a table for that cutoff nothing is covered.
pub proof fn law_covered_by_a_point(v: JsonView, top_k: u64, target: Seq<char>)
    ensures
        covers(v, top_k, target) ==> table_for(v, top_k) is Some,
        covers(v, top_k, target) ==> {
            let points = crate::json::as_array(
                crate::json::member(table_for(v, top_k)->0, "points"@),
            );
            points is Some && exists|i: int|
                0 <= i < points->0.len() && (crate::json::as_number(
                    crate::json::member(#[trigger] points->0[i], "recall"@),
                ) matches Some(r) && (crate::decimal::read_double(r) matches Some(d) && (
                crate::decimal::read_double(target) matches Some(t) && crate::double::reaches(
                    d,
                    t,
                ))))
        },
        ({
            let points = crate::json::as_array(
                crate::json::member(table_for(v, top_k)->0, "points"@),
            );
            table_for(v, top_k) is Some && points is Some && (exists|i: int|
                0 <= i < points->0.len() && (crate::json::as_number(
                    crate::json::member(#[trigger] points->0[i], "recall"@),
                ) matches Some(r) && (crate::decimal::read_double(r) matches Some(d) && (
                crate::decimal::read_double(target) matches Some(t) && crate::double::reaches(
                    d,
                    t,
                ))))) ==> covers(v, top_k, target)
        }),
{
    if covers(v, top_k, target) {
        let points = points_of(table_for(v, top_k))->0;
        let t = crate::decimal::read_double(target)->0;
        let i = choose|i: int|
            0 <= i < points.len() && reaches(point_recall(#[trigger] points[i]), t);
        assert(reaches(point_recall(points[i]), t));
    }
}

proof fn lemma_scalars(entries: Seq<(Seq<char>, JsonView)>, n: nat, i: int)
    requires
        n <= entries.len(),
        0 <= i < n,
        crate::params::is_scalar(entries[i].1),
    ensures
        scalars(entries, n).contains(
            entries[i].0 + "="@ + crate::json::json_text(crate::json::rendered(entries[i].1)),
        ),
    decreases n,
{
    let part = entries[i].0 + "="@ + crate::json::json_text(crate::json::rendered(entries[i].1));
    let front = scalars(entries, (n - 1) as nat);
    let all = scalars(entries, n);
    if i == n - 1 {
        assert(all[all.len() - 1] == part);
    } else {
        lemma_scalars(entries, (n - 1) as nat, i);
        let k = choose|k: int| 0 <= k < front.len() && front[k] == part;
        assert(all[k] == part);
    }
}

/// `part` is what is shown of a scalar member among the first `n`.
pub open spec fn is_scalar_of(
    entries: Seq<(Seq<char>, JsonView)>,
    n: nat,
    part: Seq<char>,
) -> bool {
    exists|i: int|
        0 <= i < n && crate::params::is_scalar((#[trigger] entries[i]).1) && part == entries[i].0
            + "="@ + crate::json::json_text(crate::json::rendered(entries[i].1))
}

proof fn lemma_scalars_only(entries: Seq<(Seq<char>, JsonView)>, n: nat)
    requires
        n <= entries.len(),
    ensures
        forall|k: int|
            0 <= k < scalars(entries, n).len() ==> is_scalar_of(
                entries,
                n,
                #[trigger] scalars(entries, n)[k],
            ),
        (forall|i: int| 0 <= i < n ==> crate::params::is_scalar((#[trigger] entries[i]).1))
            ==> scalars(entries, n).len() == n,
    decreases n,
{
    if n > 0 {
        let front = scalars(entries, (n - 1) as nat);
        let all = scalars(entries, n);
        lemma_scalars_only(entries, (n - 1) as nat);
        assert forall|k: int| 0 <= k < all.len() implies is_scalar_of(
            entries,
            n,
            #[trigger] all[k],
        ) by {
            if k < front.len() {
                assert(front[k] == all[k]);
                assert(is_scalar_of(entries, (n - 1) as nat, front[k]));
                let i = choose|i: int|
                    0 <= i < n - 1 && crate::params::is_scalar((#[trigger] entries[i]).1)
                        && front[k] == entries[i].0 + "="@ + crate::json::json_text(
                        crate::json::rendered(entries[i].1),
                    );
                assert(crate::params::is_scalar(entries[i].1));
            } else {
                assert(crate::params::is_scalar(entries[n - 1].1));
            }
        }
    }
}

/// What is shown of a table is each of its scalar members, as `key=value`, and nothing else.
pub proof fn law_every_scalar_is_shown(entries: Seq<(Seq<char>, JsonView)>)
    ensures
        forall|i: int|
            0 <= i < entries.len() && crate::params::is_scalar((#[trigger] entries[i]).1)
                ==> scalars(entries, entries.len()).contains(
                entries[i].0 + "="@ + crate::json::json_text(crate::json::rendered(entries[i].1)),
            ),
        forall|k: int|
            0 <= k < scalars(entries, entries.len()).len() ==> is_scalar_of(
                entries,
                entries.len(),
                #[trigger] scalars(entries, entries.len())[k],
            ),
        (forall|i: int|
            0 <= i < entries.len() ==> crate::params::is_scalar((#[trigger] entries[i]).1))
            ==> scalars(entries, entries.len()).len() == entries.len(),
{
    assert forall|i: int|
        0 <= i < entries.len() && crate::params::is_scalar(
            (#[trigger] entries[i]).1,
        ) implies scalars(entries, entries.len()).contains(
        entries[i].0 + "="@ + crate::json::json_text(crate::json::rendered(entries[i].1)),
    ) by {
        lemma_scalars(entries, entries.len(), i);
    }
    lemma_scalars_only(entries, entries.len());
}

/// What the user is told at the start, with the target as it is shown.
pub fn tune_start_line(force: bool, top_k: usize, target: &str) -> (res: String)
    ensures
        res@ == tune_start_text(force, top_k, target@),
{
    if force {
        let mut out = "\nForcing autotune re-run (topK=".to_owned();
        push_dec(&mut out, top_k as u64);
        out.append(", target recall=");
        out.append(target);
        out.append(")...");
        out
    } else {
        let mut out = "\nChecking autotune operating points (topK=".to_owned();
        push_dec(&mut out, top_k as u64);
        out.append(", target recall=");
        out.append(target);
        out.append(")...");
        out
    }
}

/// What the user is told at the start.
pub open spec fn tune_start_text(force: bool, top_k: usize, target: Seq<char>) -> Seq<char> {
    if force {
        "\nForcing autotune re-run (topK="@ + crate::text::dec(top_k as nat) + ", target recall="@
            + target + ")..."@
    } else {
        "\nChecking autotune operating points (topK="@ + crate::text::dec(top_k as nat)
            + ", target recall="@ + target + ")..."@
    }
}

/// What the user is told where autotune did not reach the target.
pub fn unreached_lines(top_k: usize, target: &str) -> (res: String)
    ensures
        res@ == "  WARNING: autotune could not reach recall "@ + target@ + " at topK="@
            + crate::text::dec(top_k as nat)
            + "; the index may not be\n  able to achieve it. Queries will fall back to the best available point."@,
{
    let mut out = "  WARNING: autotune could not reach recall ".to_owned();
    out.append(target);
    out.append(" at topK=");
    push_dec(&mut out, top_k as u64);
    out.append("; the index may not be\n  able to achieve it. Queries will fall back to the best available point.");
    out
}

/// What the user is told of a job that was submitted.
pub fn job_line(job: &str, timeout_sec: u64) -> (res: String)
    ensures
        res@ == "  Submitted autotune job "@ + job@ + " (timeout "@
            + crate::text::dec(timeout_sec as nat) + "s); polling..."@,
{
    let mut out = "  Submitted autotune job ".to_owned();
    out.append(job);
    out.append(" (timeout ");
    push_dec(&mut out, timeout_sec);
    out.append("s); polling...");
    out
}

/// What the user is told of a job that did not finish in time.
pub fn job_timeout_message(job: &str, timeout_sec: u64) -> (res: String)
    ensures
        res@ == "autotune job "@ + job@ + " did not finish within "@
            + crate::text::dec(timeout_sec as nat) + "s"@,
{
    let mut out = "autotune job ".to_owned();
    out.append(job);
    out.append(" did not finish within ");
    push_dec(&mut out, timeout_sec);
    out.append("s");
    out
}

} // verus!
