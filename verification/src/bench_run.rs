//! The course of a `bench` run: what is done next, given what came of the last step.

use crate::args::BenchArgs;
use crate::bench::BenchPlan;
use vstd::prelude::*;

verus! {

/// What a run depends on.
#[derive(Copy, Clone, Debug, PartialEq, Eq, Structural)]
pub struct BenchFacts {
    /// A dataset was named, so its file has to be found.
    pub has_dataset: bool,
    /// The plan is neither shown nor confirmed.
    pub no_plan: bool,
}

/// What kind of benchmark is run.
#[derive(Copy, Clone, Debug, PartialEq, Eq, Structural)]
pub enum BenchKind {
    /// The nProbe values are swept.
    Sweep,
    /// The server is asked for a recall.
    Target,
    /// The cutoffs are swept on a vector-graph index.
    Graph,
}

/// What is to be done now.
#[derive(Copy, Clone, Debug, PartialEq, Eq, Structural)]
pub enum BenchStep {
    /// Find the file of the dataset.
    FindDataset,
    /// Ask whether the database exists.
    FindDatabase,
    /// List the indexes, and select the one under test.
    SelectIndex,
    /// Ask how many documents the collection has.
    CountDocuments,
    /// Decide what is measured.
    MakePlan,
    /// Show the plan and a sample query.
    ShowPlan,
    /// Ask the user.
    Confirm,
    /// Have the index tuned for the target recall.
    Tune,
    /// Read or compute the ground truth.
    LoadTruth,
    /// Make the next measurement.
    Measure,
    /// Print the report.
    Report,
    /// Nothing: the run is complete.
    Complete,
    /// Nothing: the user declined.
    Aborted,
    /// Nothing: a step failed.
    Failed,
}

/// What came of a step.
#[derive(Copy, Clone, Debug, PartialEq, Eq, Structural)]
pub enum BenchEvent {
    /// It was done.
    Done,
    /// A question was answered with yes or no.
    Answer(bool),
    /// A benchmark of this kind, with so many measurements, was planned.
    Planned(BenchKind, usize),
    /// The ground truth has so many queries.
    Queries(usize),
    /// It failed.
    Failure,
}

/// How far a run has come.
#[derive(Copy, Clone, Debug, PartialEq, Eq, Structural)]
pub struct BenchState {
    pub step: BenchStep,
    pub kind: BenchKind,
    /// The measurements that are planned.
    pub total: usize,
    /// The measurements that were made.
    pub made: usize,
    /// The queries of the ground truth.
    pub queries: usize,
}

/// The state at the start of a run.
pub open spec fn start_state(facts: BenchFacts) -> BenchState {
    BenchState {
        step: if facts.has_dataset {
            BenchStep::FindDataset
        } else {
            BenchStep::FindDatabase
        },
        kind: BenchKind::Sweep,
        total: 0,
        made: 0,
        queries: 0,
    }
}

/// What is done first once the user agreed: the targetRecall query option resolves the probe
/// count from the index's persisted autotune table, so the index is tuned before anything else.
pub open spec fn first_work(kind: BenchKind) -> BenchStep {
    match kind {
        BenchKind::Target => BenchStep::Tune,
        _ => BenchStep::LoadTruth,
    }
}

/// The state with another step to be done.
pub open spec fn at(state: BenchState, step: BenchStep) -> BenchState {
    BenchState { step, ..state }
}

/// Whether a measurement is still to be made.
pub open spec fn measure_or_report(state: BenchState) -> BenchState {
    if state.made < state.total {
        at(state, BenchStep::Measure)
    } else if state.kind == BenchKind::Target && state.queries == 0 {
        at(state, BenchStep::Failed)
    } else {
        at(state, BenchStep::Report)
    }
}

/// What is done next.
pub open spec fn next_state(facts: BenchFacts, state: BenchState, event: BenchEvent) -> BenchState {
    match (state.step, event) {
        (BenchStep::Complete, _) => state,
        (BenchStep::Aborted, _) => state,
        (BenchStep::FindDataset, BenchEvent::Done) => at(state, BenchStep::FindDatabase),
        (BenchStep::FindDatabase, BenchEvent::Answer(true)) => at(state, BenchStep::SelectIndex),
        (BenchStep::SelectIndex, BenchEvent::Done) => at(state, BenchStep::CountDocuments),
        (BenchStep::CountDocuments, BenchEvent::Done) => at(state, BenchStep::MakePlan),
        (BenchStep::MakePlan, BenchEvent::Planned(kind, total)) => BenchState {
            step: if facts.no_plan {
                first_work(kind)
            } else {
                BenchStep::ShowPlan
            },
            kind,
            total,
            made: 0,
            queries: 0,
        },
        (BenchStep::ShowPlan, BenchEvent::Done) => at(state, BenchStep::Confirm),
        (BenchStep::Confirm, BenchEvent::Answer(yes)) => if yes {
            at(state, first_work(state.kind))
        } else {
            at(state, BenchStep::Aborted)
        },
        (BenchStep::Tune, BenchEvent::Done) => at(state, BenchStep::LoadTruth),
        (BenchStep::LoadTruth, BenchEvent::Queries(n)) => if state.kind == BenchKind::Graph && n
            == 0 {
            at(state, BenchStep::Failed)
        } else {
            measure_or_report(BenchState { queries: n, ..state })
        },
        (BenchStep::Measure, BenchEvent::Done) => if state.made < state.total {
            measure_or_report(BenchState { made: (state.made + 1) as usize, ..state })
        } else {
            at(state, BenchStep::Failed)
        },
        (BenchStep::Report, BenchEvent::Done) => at(state, BenchStep::Complete),
        _ => at(state, BenchStep::Failed),
    }
}

/// The kind of benchmark that a plan is of.
pub open spec fn kind_of(plan: BenchPlan) -> BenchKind {
    match plan {
        BenchPlan::Sweep { .. } => BenchKind::Sweep,
        BenchPlan::Target { .. } => BenchKind::Target,
        BenchPlan::Graph { .. } => BenchKind::Graph,
    }
}

/// A plan is of a kind, and has as many measurements as it has values to measure: each nProbe
/// value, the one target, each cutoff.
pub proof fn law_kind_of_a_plan(plan: BenchPlan)
    ensures
        kind_of(plan) == BenchKind::Sweep <==> plan is Sweep,
        kind_of(plan) == BenchKind::Target <==> plan is Target,
        kind_of(plan) == BenchKind::Graph <==> plan is Graph,
        plan matches BenchPlan::Sweep { nprobes, .. } ==> plan.measurements() == nprobes@.len(),
        plan is Target ==> plan.measurements() == 1,
        plan is Graph ==> plan.measurements() == plan.cutoffs().len(),
        plan matches BenchPlan::Sweep { ks, .. } ==> plan.cutoffs() == ks@,
        plan matches BenchPlan::Target { ks, .. } ==> plan.cutoffs() == ks@,
        plan matches BenchPlan::Graph { ks, .. } ==> plan.cutoffs() == ks@,
{
}

/// The kind and the number of measurements of a plan: one for each nProbe value of a sweep, one
/// for a target recall, one for each cutoff of a vector-graph index.
pub fn planned(plan: &BenchPlan) -> (res: BenchEvent)
    ensures
        res == BenchEvent::Planned(kind_of(*plan), plan.measurements() as usize),
        res matches BenchEvent::Planned(_, n) && n == plan.measurements(),
{
    match plan {
        BenchPlan::Sweep { info: _, ks: _, nprobes } => BenchEvent::Planned(
            BenchKind::Sweep,
            nprobes.len(),
        ),
        BenchPlan::Target { info: _, ks: _, target: _ } => BenchEvent::Planned(
            BenchKind::Target,
            1,
        ),
        BenchPlan::Graph { graph: _, ks } => BenchEvent::Planned(BenchKind::Graph, ks.len()),
    }
}

impl BenchState {
    /// The state with another step to be done.
    fn at(self, step: BenchStep) -> (res: BenchState)
        ensures
            res == at(self, step),
    {
        BenchState {
            step,
            kind: self.kind,
            total: self.total,
            made: self.made,
            queries: self.queries,
        }
    }

    /// Whether a measurement is still to be made.
    fn measure_or_report(self) -> (res: BenchState)
        ensures
            res == measure_or_report(self),
    {
        if self.made < self.total {
            self.at(BenchStep::Measure)
        } else if self.kind == BenchKind::Target && self.queries == 0 {
            self.at(BenchStep::Failed)
        } else {
            self.at(BenchStep::Report)
        }
    }
}

impl BenchKind {
    /// What is done first once the user agreed.
    fn work(self) -> (res: BenchStep)
        ensures
            res == first_work(self),
    {
        match self {
            BenchKind::Target => BenchStep::Tune,
            BenchKind::Sweep => BenchStep::LoadTruth,
            BenchKind::Graph => BenchStep::LoadTruth,
        }
    }
}

/// What a run with these arguments depends on.
pub open spec fn facts_of(args: BenchArgs) -> BenchFacts {
    BenchFacts { has_dataset: args.ann_dataset is Some, no_plan: args.no_plan }
}

/// A run goes by its own arguments: it starts with the dataset where one was named, and asks for
/// consent exactly where that was not waived.
pub proof fn law_runs_go_by_the_arguments(args: BenchArgs, state: BenchState, n: usize)
    requires
        state.step is MakePlan,
    ensures
        start_state(facts_of(args)).step is FindDataset <==> args.ann_dataset is Some,
        next_state(facts_of(args), state, BenchEvent::Planned(BenchKind::Sweep, n)).step is ShowPlan
            <==> !args.no_plan,
{
}

impl BenchFacts {
    /// What a run with these arguments depends on.
    pub fn of(args: &BenchArgs) -> (res: BenchFacts)
        ensures
            res == facts_of(*args),
    {
        BenchFacts { has_dataset: args.ann_dataset.is_some(), no_plan: args.no_plan }
    }

    /// The state at the start of a run.
    pub fn start(self) -> (res: BenchState)
        ensures
            res == start_state(self),
    {
        BenchState {
            step: if self.has_dataset {
                BenchStep::FindDataset
            } else {
                BenchStep::FindDatabase
            },
            kind: BenchKind::Sweep,
            total: 0,
            made: 0,
            queries: 0,
        }
    }

    /// What is done next.
    pub fn next(self, state: BenchState, event: BenchEvent) -> (res: BenchState)
        ensures
            res == next_state(self, state, event),
    {
        match (state.step, event) {
            (BenchStep::Complete, _) => state,
            (BenchStep::Aborted, _) => state,
            (BenchStep::FindDataset, BenchEvent::Done) => state.at(BenchStep::FindDatabase),
            (BenchStep::FindDatabase, BenchEvent::Answer(true)) => state.at(
                BenchStep::SelectIndex,
            ),
            (BenchStep::SelectIndex, BenchEvent::Done) => state.at(BenchStep::CountDocuments),
            (BenchStep::CountDocuments, BenchEvent::Done) => state.at(BenchStep::MakePlan),
            (BenchStep::MakePlan, BenchEvent::Planned(kind, total)) => BenchState {
                step: if self.no_plan {
                    kind.work()
                } else {
                    BenchStep::ShowPlan
                },
                kind,
                total,
                made: 0,
                queries: 0,
            },
            (BenchStep::ShowPlan, BenchEvent::Done) => state.at(BenchStep::Confirm),
            (BenchStep::Confirm, BenchEvent::Answer(yes)) => if yes {
                state.at(state.kind.work())
            } else {
                state.at(BenchStep::Aborted)
            },
            (BenchStep::Tune, BenchEvent::Done) => state.at(BenchStep::LoadTruth),
            (BenchStep::LoadTruth, BenchEvent::Queries(n)) => if state.kind == BenchKind::Graph && n
                == 0 {
                state.at(BenchStep::Failed)
            } else {
                let loaded = BenchState {
                    step: state.step,
                    kind: state.kind,
                    total: state.total,
                    made: state.made,
                    queries: n,
                };
                loaded.measure_or_report()
            },
            (BenchStep::Measure, BenchEvent::Done) => if state.made < state.total {
                let measured = BenchState {
                    step: state.step,
                    kind: state.kind,
                    total: state.total,
                    made: state.made + 1,
                    queries: state.queries,
                };
                measured.measure_or_report()
            } else {
                state.at(BenchStep::Failed)
            },
            (BenchStep::Report, BenchEvent::Done) => state.at(BenchStep::Complete),
            _ => state.at(BenchStep::Failed),
        }
    }
}

// ---------------------------------------------------------------------------
// What holds of every run
// ---------------------------------------------------------------------------

/// `states` are the states of a run in which `events[i]` came of `states[i]`.
pub open spec fn is_run(
    facts: BenchFacts,
    states: Seq<BenchState>,
    events: Seq<BenchEvent>,
) -> bool {
    &&& states.len() > 0
    &&& events.len() + 1 == states.len()
    &&& states[0] == start_state(facts)
    &&& forall|i: int|
        0 <= i < events.len() ==> states[i + 1] == next_state(
            facts,
            states[i],
            #[trigger] events[i],
        )
}

/// Before the `i`-th state, `step` came to `event`.
pub open spec fn happened(
    states: Seq<BenchState>,
    events: Seq<BenchEvent>,
    i: int,
    step: BenchStep,
    event: BenchEvent,
) -> bool {
    exists|j: int| 0 <= j < i && states[j].step == step && #[trigger] events[j] == event
}

/// The number of measurements that were made before the `i`-th state.
pub open spec fn measurements(states: Seq<BenchState>, events: Seq<BenchEvent>, i: int) -> nat
    decreases i,
{
    if i <= 0 {
        0
    } else {
        measurements(states, events, i - 1) + (if states[i - 1].step is Measure && events[i - 1]
            == BenchEvent::Done {
            1nat
        } else {
            0
        })
    }
}

/// The run has come behind the user's consent.
pub open spec fn at_work(step: BenchStep) -> bool {
    ||| step is Tune
    ||| step is LoadTruth
    ||| step is Measure
    ||| step is Report
    ||| step is Complete
}

proof fn lemma_history(
    facts: BenchFacts,
    states: Seq<BenchState>,
    events: Seq<BenchEvent>,
    i: int,
)
    requires
        is_run(facts, states, events),
        0 <= i < states.len(),
    ensures
        at_work(states[i].step) && !facts.no_plan ==> happened(
            states,
            events,
            i,
            BenchStep::Confirm,
            BenchEvent::Answer(true),
        ),
        states[i].step is Tune ==> states[i].kind == BenchKind::Target,
        states[i].kind == BenchKind::Target && (states[i].step is LoadTruth
            || states[i].step is Measure || states[i].step is Report || states[i].step is Complete)
            ==> happened(states, events, i, BenchStep::Tune, BenchEvent::Done),
        states[i].made == measurements(states, events, i),
        states[i].made <= states[i].total,
        states[i].step is Measure ==> states[i].made < states[i].total,
        states[i].step is Report || states[i].step is Complete ==> states[i].made
            == states[i].total,
        !(at_work(states[i].step) || states[i].step is Failed) ==> states[i].made == 0,
        states[i].step is Tune || states[i].step is LoadTruth ==> states[i].made == 0,
        (states[i].step is Report || states[i].step is Complete) && states[i].kind
            != BenchKind::Sweep ==> states[i].queries > 0,
        states[i].step is Measure && states[i].kind == BenchKind::Graph ==> states[i].queries > 0,
    decreases i,
{
    if i > 0 {
        let p = i - 1;
        lemma_history(facts, states, events, p);
        assert(states[p + 1] == next_state(facts, states[p], events[p]));
        assert forall|step: BenchStep, event: BenchEvent| #[trigger]
            happened(states, events, p, step, event) implies happened(
            states,
            events,
            i,
            step,
            event,
        ) by {
            let j = choose|j: int|
                0 <= j < p && states[j].step == step && #[trigger] events[j] == event;
            assert(0 <= j < i && states[j].step == step && events[j] == event);
        }
        assert(happened(states, events, i, states[p].step, events[p]));
    }
}

/// Neither is the index tuned nor anything measured before the user agreed to the plan; with
/// `--no-plan` the consent is not asked for.
pub proof fn law_no_work_without_consent(
    facts: BenchFacts,
    states: Seq<BenchState>,
    events: Seq<BenchEvent>,
    i: int,
)
    requires
        is_run(facts, states, events),
        0 <= i < states.len(),
        at_work(states[i].step),
    ensures
        facts.no_plan || happened(
            states,
            events,
            i,
            BenchStep::Confirm,
            BenchEvent::Answer(true),
        ),
{
    lemma_history(facts, states, events, i);
}

/// Autotune serves the target-recall benchmark alone, which queries only after it.
pub proof fn law_tuned_before_target_queries(
    facts: BenchFacts,
    states: Seq<BenchState>,
    events: Seq<BenchEvent>,
    i: int,
)
    requires
        is_run(facts, states, events),
        0 <= i < states.len(),
    ensures
        states[i].step is Tune ==> states[i].kind == BenchKind::Target,
        states[i].kind == BenchKind::Target && states[i].step is Measure ==> happened(
            states,
            events,
            i,
            BenchStep::Tune,
            BenchEvent::Done,
        ),
{
    lemma_history(facts, states, events, i);
}

/// A report comes when all planned measurements were made, each once; but for a sweep it is
/// never of no queries.
pub proof fn law_report_is_of_all_measurements(
    facts: BenchFacts,
    states: Seq<BenchState>,
    events: Seq<BenchEvent>,
    i: int,
)
    requires
        is_run(facts, states, events),
        0 <= i < states.len(),
        states[i].step is Report,
    ensures
        measurements(states, events, i) == states[i].total,
        states[i].kind != BenchKind::Sweep ==> states[i].queries > 0,
{
    lemma_history(facts, states, events, i);
}

/// What is expected to come of a step.
pub open spec fn is_expected(step: BenchStep, event: BenchEvent) -> bool {
    match step {
        BenchStep::FindDatabase => event == BenchEvent::Answer(true),
        BenchStep::Confirm => event is Answer,
        BenchStep::MakePlan => event is Planned,
        BenchStep::LoadTruth => event is Queries,
        _ => event is Done,
    }
}

/// Every step has its reason in the one before. A dataset is looked for first, where one was
/// named; without the database there is no benchmark; the plan is shown and confirmed only where
/// that was not waived; a benchmark fails only where a step did not come to what was expected or
/// where there are no queries to measure.
pub proof fn law_steps_have_reasons(
    facts: BenchFacts,
    states: Seq<BenchState>,
    events: Seq<BenchEvent>,
    i: int,
)
    requires
        is_run(facts, states, events),
        0 < i < states.len(),
    ensures
        ({
            let before = states[i - 1];
            let event = events[i - 1];
            let now = states[i];
            &&& states[0].step is FindDataset <==> facts.has_dataset
            &&& states[0].step is FindDatabase <==> !facts.has_dataset
            &&& !(now.step is FindDataset)
            &&& now.step is FindDatabase ==> before.step is FindDataset
            &&& now.step is SelectIndex <==> before.step is FindDatabase && event
                == BenchEvent::Answer(true)
            &&& now.step is CountDocuments ==> before.step is SelectIndex
            &&& now.step is MakePlan ==> before.step is CountDocuments
            &&& now.step is ShowPlan ==> before.step is MakePlan && !facts.no_plan
            &&& now.step is Confirm ==> before.step is ShowPlan
            &&& now.step is Tune ==> before.step is MakePlan || before.step is Confirm
            &&& now.step is LoadTruth ==> before.step is Tune || before.kind != BenchKind::Target
                || before.step is MakePlan
            &&& now.step is Measure ==> before.step is LoadTruth || before.step is Measure
            &&& now.step is Complete ==> before.step is Report || before.step is Complete
            &&& now.step is Aborted <==> before.step is Aborted || (before.step is Confirm && event
                == BenchEvent::Answer(false))
            &&& is_expected(before.step, event) && !(before.step is Failed) && now.step is Failed
                ==> now.kind != BenchKind::Sweep && (now.queries == 0 || event
                == BenchEvent::Queries(0))
            &&& before.step is LoadTruth && before.kind == BenchKind::Graph && event
                == BenchEvent::Queries(0) ==> now.step is Failed
            &&& event is Failure ==> now.step is Failed || before.step is Complete
                || before.step is Aborted
        }),
{
    let p = i - 1;
    lemma_history(facts, states, events, p);
    assert(states[p + 1] == next_state(facts, states[p], events[p]));
}

/// What was planned stays: the kind and the number of measurements are those of the plan from
/// the planning on, and the number of queries is that of the ground truth from its loading on.
pub proof fn law_plan_stays(
    facts: BenchFacts,
    states: Seq<BenchState>,
    events: Seq<BenchEvent>,
    i: int,
)
    requires
        is_run(facts, states, events),
        0 < i < states.len(),
    ensures
        ({
            let before = states[i - 1];
            let now = states[i];
            &&& before.step is MakePlan ==> (events[i - 1] matches BenchEvent::Planned(kind, total)
                ==> now.kind == kind && now.total == total && now.made == 0)
            &&& !(before.step is MakePlan) ==> now.kind == before.kind && now.total == before.total
            &&& before.step is LoadTruth ==> (events[i - 1] matches BenchEvent::Queries(n) ==> (
            now.step is Measure || now.step is Report ==> now.queries == n))
            &&& !(before.step is LoadTruth) && !(before.step is MakePlan) ==> now.queries
                == before.queries
            &&& now.made == before.made || now.made == before.made + 1 || before.step is MakePlan
            &&& now.made == before.made + 1 ==> before.step is Measure
        }),
{
    let p = i - 1;
    assert(states[p + 1] == next_state(facts, states[p], events[p]));
}

/// Every measurement is one of those planned: it is the `made`-th, which is below `total`.
pub proof fn law_measurements_are_planned(
    facts: BenchFacts,
    states: Seq<BenchState>,
    events: Seq<BenchEvent>,
    i: int,
)
    requires
        is_run(facts, states, events),
        0 <= i < states.len(),
        states[i].step is Measure,
    ensures
        states[i].made == measurements(states, events, i),
        states[i].made < states[i].total,
{
    lemma_history(facts, states, events, i);
}

} // verus!
