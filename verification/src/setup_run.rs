//! The course of a `setup` run: what is done next, given what came of the last step.

use crate::args::{IndexType, SetupArgs};
use vstd::prelude::*;

verus! {

// ---------------------------------------------------------------------------
// The run
// ---------------------------------------------------------------------------

/// What a run depends on.
#[derive(Copy, Clone, Debug, PartialEq, Eq, Structural)]
pub struct SetupFacts {
    pub index_type: IndexType,
    /// A dataset was named, so its file has to be found.
    pub has_dataset: bool,
    /// Only the index is (re)created.
    pub only_vector: bool,
    /// The plan is neither shown nor confirmed.
    pub no_plan: bool,
}

/// What is to be done now.
#[derive(Copy, Clone, Debug, PartialEq, Eq, Structural)]
pub enum SetupStep {
    /// Check the `--set` parameters.
    Validate,
    /// Find the file of the dataset.
    FindDataset,
    /// Tell the metric, and check it against the index type.
    ResolveMetric,
    /// Tell the dimension, and with it make the plan.
    MakePlan,
    /// Show the plan.
    ShowPlan,
    /// Ask the user.
    Confirm,
    /// Ask whether the database exists.
    FindDatabase,
    /// Create the database.
    CreateDatabase,
    /// Drop the collection where it exists.
    DropCollection,
    /// Create the collection.
    CreateCollection,
    /// Insert the vectors.
    Insert,
    /// Create the index, and wait for it where it is trained.
    BuildIndex,
    /// Show the stats of the index and the times.
    Report,
    /// Nothing: the run is complete.
    Complete,
    /// Nothing: the user declined.
    Aborted,
    /// Nothing: a step failed.
    Failed,
}

/// What came of a step.
#[derive(Copy, Clone, Debug, PartialEq, Eq, Structural)]
pub enum SetupEvent {
    /// It was done.
    Done,
    /// A question was answered with yes or no.
    Answer(bool),
    /// It failed.
    Failure,
}

/// What is done first once the user agreed: with `--only-vector` nothing but the index is
/// touched.
pub open spec fn first_work(facts: SetupFacts) -> SetupStep {
    if facts.only_vector {
        SetupStep::BuildIndex
    } else {
        SetupStep::FindDatabase
    }
}

/// What is done next. The vector-graph index is built on the empty collection and populated
/// afterwards (it indexes each document as it is inserted); the IVF index is trained on the
/// already-ingested data, so it is created last.
pub open spec fn next_step(facts: SetupFacts, step: SetupStep, event: SetupEvent) -> SetupStep {
    match step {
        SetupStep::Complete => SetupStep::Complete,
        SetupStep::Aborted => SetupStep::Aborted,
        SetupStep::Failed => SetupStep::Failed,
        _ => match event {
            SetupEvent::Failure => SetupStep::Failed,
            SetupEvent::Answer(yes) => match step {
                SetupStep::Confirm => if yes {
                    first_work(facts)
                } else {
                    SetupStep::Aborted
                },
                SetupStep::FindDatabase => if yes {
                    SetupStep::DropCollection
                } else {
                    SetupStep::CreateDatabase
                },
                _ => SetupStep::Failed,
            },
            SetupEvent::Done => match step {
                SetupStep::Validate => if facts.has_dataset {
                    SetupStep::FindDataset
                } else {
                    SetupStep::ResolveMetric
                },
                SetupStep::FindDataset => SetupStep::ResolveMetric,
                SetupStep::ResolveMetric => SetupStep::MakePlan,
                SetupStep::MakePlan => if facts.no_plan {
                    first_work(facts)
                } else {
                    SetupStep::ShowPlan
                },
                SetupStep::ShowPlan => SetupStep::Confirm,
                SetupStep::CreateDatabase => SetupStep::DropCollection,
                SetupStep::DropCollection => SetupStep::CreateCollection,
                SetupStep::CreateCollection => match facts.index_type {
                    IndexType::VectorGraph => SetupStep::BuildIndex,
                    IndexType::Ivf => SetupStep::Insert,
                },
                SetupStep::Insert => match facts.index_type {
                    IndexType::VectorGraph => SetupStep::Report,
                    IndexType::Ivf => SetupStep::BuildIndex,
                },
                SetupStep::BuildIndex => if facts.only_vector {
                    SetupStep::Report
                } else {
                    match facts.index_type {
                        IndexType::VectorGraph => SetupStep::Insert,
                        IndexType::Ivf => SetupStep::Report,
                    }
                },
                SetupStep::Report => SetupStep::Complete,
                _ => SetupStep::Failed,
            },
        },
    }
}

/// What a run with these arguments depends on.
pub open spec fn facts_of(args: SetupArgs) -> SetupFacts {
    SetupFacts {
        index_type: args.index_type,
        has_dataset: args.ann_dataset is Some,
        only_vector: args.only_vector,
        no_plan: args.no_plan,
    }
}

/// A run goes by its own arguments: a dataset is looked for where one was named, the index is of
/// the type that was asked for, and data and consent are left out exactly where that was asked.
pub proof fn law_runs_go_by_the_arguments(args: SetupArgs)
    ensures
        next_step(facts_of(args), SetupStep::Validate, SetupEvent::Done) == (match args.ann_dataset {
            Some(_) => SetupStep::FindDataset,
            None => SetupStep::ResolveMetric,
        }),
        next_step(facts_of(args), SetupStep::MakePlan, SetupEvent::Done) is ShowPlan
            <==> !args.no_plan,
        next_step(facts_of(args), SetupStep::Confirm, SetupEvent::Answer(true)) is BuildIndex
            <==> args.only_vector,
        next_step(facts_of(args), SetupStep::CreateCollection, SetupEvent::Done) is Insert
            <==> args.index_type is Ivf,
{
}

impl SetupFacts {
    /// What a run with these arguments depends on.
    pub fn of(args: &SetupArgs) -> (res: SetupFacts)
        ensures
            res == facts_of(*args),
    {
        SetupFacts {
            index_type: args.index_type,
            has_dataset: args.ann_dataset.is_some(),
            only_vector: args.only_vector,
            no_plan: args.no_plan,
        }
    }

    /// What is done first once the user agreed.
    fn work(self) -> (res: SetupStep)
        ensures
            res == first_work(self),
    {
        if self.only_vector {
            SetupStep::BuildIndex
        } else {
            SetupStep::FindDatabase
        }
    }

    /// What is done next.
    pub fn next(self, step: SetupStep, event: SetupEvent) -> (res: SetupStep)
        ensures
            res == next_step(self, step, event),
    {
        match (step, event) {
            (SetupStep::Complete, _) => SetupStep::Complete,
            (SetupStep::Aborted, _) => SetupStep::Aborted,
            (SetupStep::Failed, _) => SetupStep::Failed,
            (SetupStep::Confirm, SetupEvent::Answer(true)) => self.work(),
            (SetupStep::Confirm, SetupEvent::Answer(false)) => SetupStep::Aborted,
            (SetupStep::FindDatabase, SetupEvent::Answer(true)) => SetupStep::DropCollection,
            (SetupStep::FindDatabase, SetupEvent::Answer(false)) => SetupStep::CreateDatabase,
            (SetupStep::Validate, SetupEvent::Done) => if self.has_dataset {
                SetupStep::FindDataset
            } else {
                SetupStep::ResolveMetric
            },
            (SetupStep::FindDataset, SetupEvent::Done) => SetupStep::ResolveMetric,
            (SetupStep::ResolveMetric, SetupEvent::Done) => SetupStep::MakePlan,
            (SetupStep::MakePlan, SetupEvent::Done) => if self.no_plan {
                self.work()
            } else {
                SetupStep::ShowPlan
            },
            (SetupStep::ShowPlan, SetupEvent::Done) => SetupStep::Confirm,
            (SetupStep::CreateDatabase, SetupEvent::Done) => SetupStep::DropCollection,
            (SetupStep::DropCollection, SetupEvent::Done) => SetupStep::CreateCollection,
            (SetupStep::CreateCollection, SetupEvent::Done) => match self.index_type {
                IndexType::VectorGraph => SetupStep::BuildIndex,
                IndexType::Ivf => SetupStep::Insert,
            },
            (SetupStep::Insert, SetupEvent::Done) => match self.index_type {
                IndexType::VectorGraph => SetupStep::Report,
                IndexType::Ivf => SetupStep::BuildIndex,
            },
            (SetupStep::BuildIndex, SetupEvent::Done) => match (self.only_vector, self.index_type) {
                (false, IndexType::VectorGraph) => SetupStep::Insert,
                _ => SetupStep::Report,
            },
            (SetupStep::Report, SetupEvent::Done) => SetupStep::Complete,
            _ => SetupStep::Failed,
        }
    }
}

// ---------------------------------------------------------------------------
// What holds of every run
// ---------------------------------------------------------------------------

/// `steps` are the steps of a run in which `events[i]` came of `steps[i]`.
pub open spec fn is_run(
    facts: SetupFacts,
    steps: Seq<SetupStep>,
    events: Seq<SetupEvent>,
) -> bool {
    &&& steps.len() > 0
    &&& events.len() + 1 == steps.len()
    &&& steps[0] == SetupStep::Validate
    &&& forall|i: int|
        0 <= i < events.len() ==> steps[i + 1] == next_step(
            facts,
            steps[i],
            #[trigger] events[i],
        )
}

/// The step changes something on the server.
pub open spec fn changes_server(step: SetupStep) -> bool {
    ||| step is CreateDatabase
    ||| step is DropCollection
    ||| step is CreateCollection
    ||| step is Insert
    ||| step is BuildIndex
}

/// Before the `i`-th step, `step` came to `event`.
pub open spec fn happened(
    steps: Seq<SetupStep>,
    events: Seq<SetupEvent>,
    i: int,
    step: SetupStep,
    event: SetupEvent,
) -> bool {
    exists|j: int| 0 <= j < i && steps[j] == step && #[trigger] events[j] == event
}

proof fn lemma_happened_stays(
    steps: Seq<SetupStep>,
    events: Seq<SetupEvent>,
    i: int,
    step: SetupStep,
    event: SetupEvent,
)
    requires
        happened(steps, events, i, step, event),
    ensures
        happened(steps, events, i + 1, step, event),
{
    let j = choose|j: int| 0 <= j < i && steps[j] == step && #[trigger] events[j] == event;
    assert(0 <= j < i + 1 && steps[j] == step && events[j] == event);
}

/// The run has come behind the user's consent.
spec fn at_work(step: SetupStep) -> bool {
    changes_server(step) || step is FindDatabase || step is Report || step is Complete
}

/// The run has come behind the check of the parameters.
spec fn validated(step: SetupStep) -> bool {
    !(step is Validate) && !(step is Failed)
}

proof fn lemma_history(
    facts: SetupFacts,
    steps: Seq<SetupStep>,
    events: Seq<SetupEvent>,
    i: int,
)
    requires
        is_run(facts, steps, events),
        0 <= i < steps.len(),
    ensures
        validated(steps[i]) ==> happened(steps, events, i, SetupStep::Validate, SetupEvent::Done),
        at_work(steps[i]) && !facts.no_plan ==> happened(
            steps,
            events,
            i,
            SetupStep::Confirm,
            SetupEvent::Answer(true),
        ),
        at_work(steps[i]) && !facts.no_plan ==> happened(
            steps,
            events,
            i,
            SetupStep::ShowPlan,
            SetupEvent::Done,
        ),
        steps[i] is Confirm ==> happened(steps, events, i, SetupStep::ShowPlan, SetupEvent::Done),
        facts.only_vector ==> !(steps[i] is FindDatabase || steps[i] is CreateDatabase
            || steps[i] is DropCollection || steps[i] is CreateCollection || steps[i] is Insert),
        facts.index_type == IndexType::VectorGraph && steps[i] is Insert ==> happened(
            steps,
            events,
            i,
            SetupStep::BuildIndex,
            SetupEvent::Done,
        ),
        facts.index_type == IndexType::Ivf && !facts.only_vector && steps[i] is BuildIndex
            ==> happened(steps, events, i, SetupStep::Insert, SetupEvent::Done),
        steps[i] is Report || steps[i] is Complete ==> happened(
            steps,
            events,
            i,
            SetupStep::BuildIndex,
            SetupEvent::Done,
        ),
        (steps[i] is Report || steps[i] is Complete) && !facts.only_vector ==> happened(
            steps,
            events,
            i,
            SetupStep::Insert,
            SetupEvent::Done,
        ),
        steps[i] is CreateCollection ==> happened(
            steps,
            events,
            i,
            SetupStep::DropCollection,
            SetupEvent::Done,
        ),
        steps[i] is Insert || (steps[i] is BuildIndex && !facts.only_vector) ==> happened(
            steps,
            events,
            i,
            SetupStep::DropCollection,
            SetupEvent::Done,
        ) && happened(steps, events, i, SetupStep::CreateCollection, SetupEvent::Done),
    decreases i,
{
    if i > 0 {
        let p = i - 1;
        lemma_history(facts, steps, events, p);
        assert(steps[p + 1] == next_step(facts, steps[p], events[p]));
        assert forall|step: SetupStep, event: SetupEvent| #[trigger]
            happened(steps, events, p, step, event) implies happened(
            steps,
            events,
            i,
            step,
            event,
        ) by {
            lemma_happened_stays(steps, events, p, step, event);
        }
        assert(happened(steps, events, i, steps[p], events[p]));
    }
}

/// Nothing on the server is changed before the parameters were found valid and the user, who
/// was shown the plan, agreed to it; with `--no-plan` the consent is not asked for.
pub proof fn law_no_change_without_consent(
    facts: SetupFacts,
    steps: Seq<SetupStep>,
    events: Seq<SetupEvent>,
    i: int,
)
    requires
        is_run(facts, steps, events),
        0 <= i < steps.len(),
        changes_server(steps[i]),
    ensures
        happened(steps, events, i, SetupStep::Validate, SetupEvent::Done),
        facts.no_plan || happened(steps, events, i, SetupStep::ShowPlan, SetupEvent::Done),
        facts.no_plan || happened(steps, events, i, SetupStep::Confirm, SetupEvent::Answer(true)),
{
    lemma_history(facts, steps, events, i);
}

/// The vector-graph index is created before the vectors are inserted, the IVF index after.
pub proof fn law_index_order(
    facts: SetupFacts,
    steps: Seq<SetupStep>,
    events: Seq<SetupEvent>,
    i: int,
)
    requires
        is_run(facts, steps, events),
        0 <= i < steps.len(),
    ensures
        facts.index_type == IndexType::VectorGraph && steps[i] is Insert ==> happened(
            steps,
            events,
            i,
            SetupStep::BuildIndex,
            SetupEvent::Done,
        ),
        facts.index_type == IndexType::Ivf && !facts.only_vector && steps[i] is BuildIndex
            ==> happened(steps, events, i, SetupStep::Insert, SetupEvent::Done),
{
    lemma_history(facts, steps, events, i);
}

/// The collection is dropped and created anew before vectors are inserted into it.
pub proof fn law_collection_before_vectors(
    facts: SetupFacts,
    steps: Seq<SetupStep>,
    events: Seq<SetupEvent>,
    i: int,
)
    requires
        is_run(facts, steps, events),
        0 <= i < steps.len(),
        steps[i] is Insert,
    ensures
        happened(steps, events, i, SetupStep::DropCollection, SetupEvent::Done),
        happened(steps, events, i, SetupStep::CreateCollection, SetupEvent::Done),
{
    lemma_history(facts, steps, events, i);
}

/// With `--only-vector` the database, the collection and its documents are left as they are.
pub proof fn law_only_vector_keeps_data(
    facts: SetupFacts,
    steps: Seq<SetupStep>,
    events: Seq<SetupEvent>,
    i: int,
)
    requires
        is_run(facts, steps, events),
        0 <= i < steps.len(),
        facts.only_vector,
        changes_server(steps[i]),
    ensures
        steps[i] is BuildIndex,
{
    lemma_history(facts, steps, events, i);
}

/// A complete run has built the index and, but for `--only-vector`, inserted the vectors.
pub proof fn law_complete_run(
    facts: SetupFacts,
    steps: Seq<SetupStep>,
    events: Seq<SetupEvent>,
    i: int,
)
    requires
        is_run(facts, steps, events),
        0 <= i < steps.len(),
        steps[i] is Complete,
    ensures
        happened(steps, events, i, SetupStep::BuildIndex, SetupEvent::Done),
        facts.only_vector || happened(steps, events, i, SetupStep::Insert, SetupEvent::Done),
{
    lemma_history(facts, steps, events, i);
}

/// A run in which a user declines has changed nothing on the server.
pub proof fn law_declined_run_changes_nothing(
    facts: SetupFacts,
    steps: Seq<SetupStep>,
    events: Seq<SetupEvent>,
    i: int,
    j: int,
)
    requires
        is_run(facts, steps, events),
        0 <= j <= i < steps.len(),
        steps[i] is Aborted,
    ensures
        !changes_server(steps[j]),
{
    lemma_rank(facts, steps, events, j, i);
}

/// How far a run has come; every step comes further, until the run ends.
pub open spec fn progress(step: SetupStep, index_type: IndexType) -> int {
    match step {
        SetupStep::Validate => 0,
        SetupStep::FindDataset => 1,
        SetupStep::ResolveMetric => 2,
        SetupStep::MakePlan => 3,
        SetupStep::ShowPlan => 4,
        SetupStep::Confirm => 5,
        SetupStep::FindDatabase => 6,
        SetupStep::CreateDatabase => 7,
        SetupStep::DropCollection => 8,
        SetupStep::CreateCollection => 9,
        SetupStep::Insert => if index_type == IndexType::Ivf {
            10
        } else {
            11
        },
        SetupStep::BuildIndex => if index_type == IndexType::Ivf {
            11
        } else {
            10
        },
        SetupStep::Report => 12,
        SetupStep::Complete => 13,
        SetupStep::Aborted => 13,
        SetupStep::Failed => 13,
    }
}

proof fn lemma_rank(
    facts: SetupFacts,
    steps: Seq<SetupStep>,
    events: Seq<SetupEvent>,
    j: int,
    i: int,
)
    requires
        is_run(facts, steps, events),
        0 <= j <= i < steps.len(),
    ensures
        at_work(steps[j]) ==> !(steps[i] is Aborted),
        at_work(steps[j]) ==> at_work(steps[i]) || steps[i] is Failed,
    decreases i - j,
{
    if j < i {
        lemma_rank(facts, steps, events, j, i - 1);
        let e = events[i - 1];
        assert(steps[i - 1 + 1] == next_step(facts, steps[i - 1], e));
    }
}

/// Every run ends: after thirteen events at the latest nothing is left to be done.
pub proof fn law_runs_end(facts: SetupFacts, steps: Seq<SetupStep>, events: Seq<SetupEvent>)
    requires
        is_run(facts, steps, events),
        events.len() >= 13,
    ensures
        steps[13] is Complete || steps[13] is Aborted || steps[13] is Failed,
{
    lemma_progress(facts, steps, events, 13);
}

proof fn lemma_progress(
    facts: SetupFacts,
    steps: Seq<SetupStep>,
    events: Seq<SetupEvent>,
    i: int,
)
    requires
        is_run(facts, steps, events),
        0 <= i < steps.len(),
        i <= 13,
    ensures
        progress(steps[i], facts.index_type) >= i,
    decreases i,
{
    if i > 0 {
        lemma_progress(facts, steps, events, i - 1);
        let e = events[i - 1];
        assert(steps[i - 1 + 1] == next_step(facts, steps[i - 1], e));
    }
}

/// A step at which a run has ended.
pub open spec fn ended(step: SetupStep) -> bool {
    step is Complete || step is Aborted || step is Failed
}

proof fn lemma_progress_grows(
    facts: SetupFacts,
    steps: Seq<SetupStep>,
    events: Seq<SetupEvent>,
    i: int,
    j: int,
)
    requires
        is_run(facts, steps, events),
        0 <= i < j < steps.len(),
    ensures
        ended(steps[j]) || progress(steps[i], facts.index_type) < progress(
            steps[j],
            facts.index_type,
        ),
    decreases j - i,
{
    assert(steps[j - 1 + 1] == next_step(facts, steps[j - 1], events[j - 1]));
    if i < j - 1 {
        lemma_progress_grows(facts, steps, events, i, j - 1);
    }
}

/// No step is taken twice before the run ends.
pub proof fn law_no_step_twice(
    facts: SetupFacts,
    steps: Seq<SetupStep>,
    events: Seq<SetupEvent>,
    i: int,
    j: int,
)
    requires
        is_run(facts, steps, events),
        0 <= i < j < steps.len(),
        !ended(steps[j]),
    ensures
        steps[i] != steps[j],
{
    lemma_progress_grows(facts, steps, events, i, j);
}

/// A complete run has built the index exactly once.
pub proof fn law_index_is_built_once(
    facts: SetupFacts,
    steps: Seq<SetupStep>,
    events: Seq<SetupEvent>,
    end: int,
)
    requires
        is_run(facts, steps, events),
        0 <= end < steps.len(),
        steps[end] is Complete,
    ensures
        exists|i: int|
            0 <= i < end && #[trigger] steps[i] == SetupStep::BuildIndex && events[i]
                == SetupEvent::Done,
        forall|i: int, j: int|
            0 <= i < j < steps.len() ==> !((#[trigger] steps[i]) is BuildIndex && (
            #[trigger] steps[j]) is BuildIndex),
{
    law_complete_run(facts, steps, events, end);
    assert forall|i: int, j: int| 0 <= i < j < steps.len() implies !((
    #[trigger] steps[i]) is BuildIndex && (#[trigger] steps[j]) is BuildIndex) by {
        if steps[j] is BuildIndex {
            law_no_step_twice(facts, steps, events, i, j);
        }
    }
}

/// What is expected to come of a step: an answer where something is asked, else that it is done.
pub open spec fn is_expected(step: SetupStep, event: SetupEvent) -> bool {
    if step is Confirm || step is FindDatabase {
        event is Answer
    } else {
        event is Done
    }
}

/// Every step but the first has its reason in the one before: a dataset is looked for only where
/// one was named; the plan is shown and confirmed only where that was not waived; the database is
/// created only where it was found missing, and the collection is dropped once there is one.
pub proof fn law_steps_have_reasons(
    facts: SetupFacts,
    steps: Seq<SetupStep>,
    events: Seq<SetupEvent>,
    i: int,
)
    requires
        is_run(facts, steps, events),
        0 < i < steps.len(),
    ensures
        steps[i] is FindDataset ==> facts.has_dataset && steps[i - 1] is Validate,
        steps[i] is ResolveMetric ==> steps[i - 1] == (if facts.has_dataset {
            SetupStep::FindDataset
        } else {
            SetupStep::Validate
        }),
        steps[i] is MakePlan ==> steps[i - 1] is ResolveMetric,
        steps[i] is ShowPlan ==> steps[i - 1] is MakePlan && !facts.no_plan,
        steps[i] is Confirm ==> steps[i - 1] is ShowPlan && !facts.no_plan,
        steps[i] is FindDatabase ==> !facts.only_vector,
        steps[i] is CreateDatabase ==> steps[i - 1] is FindDatabase && events[i - 1]
            == SetupEvent::Answer(false),
        steps[i] is DropCollection ==> steps[i - 1] is CreateDatabase || (
        steps[i - 1] is FindDatabase && events[i - 1] == SetupEvent::Answer(true)),
        steps[i] is CreateCollection ==> steps[i - 1] is DropCollection,
        steps[i] is Complete ==> steps[i - 1] is Report || steps[i - 1] is Complete,
        steps[i] is Aborted ==> steps[i - 1] is Aborted || (steps[i - 1] is Confirm && events[i
            - 1] == SetupEvent::Answer(false)),
        events[i - 1] is Failure ==> steps[i] is Failed || ended(steps[i - 1]),
        is_expected(steps[i - 1], events[i - 1]) && !(steps[i - 1] is Failed) ==> !(
        steps[i] is Failed),
    decreases i,
{
    let p = i - 1;
    assert(steps[p + 1] == next_step(facts, steps[p], events[p]));
    if p > 0 {
        law_steps_have_reasons(facts, steps, events, p);
    }
}

// ---------------------------------------------------------------------------
// Building the index
// ---------------------------------------------------------------------------

/// What is to be done now to have the index.
#[derive(Copy, Clone, Debug, PartialEq, Eq, Structural)]
pub enum BuildStep {
    /// Ask the server to create it.
    Create,
    /// Look whether there is time left to wait for it.
    LookAtClock,
    /// List the indexes, to see whether it is ready.
    List,
    /// Wait a little.
    Pause,
    /// Nothing: the index can be used.
    Ready,
    /// Nothing: it was not ready in time.
    TimedOut,
    /// Nothing: a step failed.
    Failed,
}

/// What came of a step.
#[derive(Copy, Clone, Debug, PartialEq, Eq, Structural)]
pub enum BuildEvent {
    /// It was done.
    Done,
    /// A question was answered with yes or no: is there time left, is the index ready.
    Answer(bool),
    /// It failed.
    Failure,
}

/// What is done next. An IVF index is trained, so it is waited for; it may come to be ready
/// though the request to create it failed. The graph index becomes usable as soon as the
/// request is answered.
pub open spec fn next_build_step(
    index_type: IndexType,
    step: BuildStep,
    event: BuildEvent,
) -> BuildStep {
    match (step, event) {
        (BuildStep::Ready, _) => BuildStep::Ready,
        (BuildStep::TimedOut, _) => BuildStep::TimedOut,
        (BuildStep::Create, BuildEvent::Done) => match index_type {
            IndexType::Ivf => BuildStep::LookAtClock,
            IndexType::VectorGraph => BuildStep::Ready,
        },
        (BuildStep::Create, BuildEvent::Failure) => match index_type {
            IndexType::Ivf => BuildStep::LookAtClock,
            IndexType::VectorGraph => BuildStep::Failed,
        },
        (BuildStep::LookAtClock, BuildEvent::Answer(left)) => if left {
            BuildStep::List
        } else {
            BuildStep::TimedOut
        },
        (BuildStep::List, BuildEvent::Answer(ready)) => if ready {
            BuildStep::Ready
        } else {
            BuildStep::Pause
        },
        (BuildStep::Pause, BuildEvent::Done) => BuildStep::LookAtClock,
        _ => BuildStep::Failed,
    }
}

/// What is done next to have the index.
pub fn build_next(index_type: IndexType, step: BuildStep, event: BuildEvent) -> (res: BuildStep)
    ensures
        res == next_build_step(index_type, step, event),
{
    match (step, event) {
        (BuildStep::Ready, _) => BuildStep::Ready,
        (BuildStep::TimedOut, _) => BuildStep::TimedOut,
        (BuildStep::Create, BuildEvent::Done) => match index_type {
            IndexType::Ivf => BuildStep::LookAtClock,
            IndexType::VectorGraph => BuildStep::Ready,
        },
        (BuildStep::Create, BuildEvent::Failure) => match index_type {
            IndexType::Ivf => BuildStep::LookAtClock,
            IndexType::VectorGraph => BuildStep::Failed,
        },
        (BuildStep::LookAtClock, BuildEvent::Answer(left)) => if left {
            BuildStep::List
        } else {
            BuildStep::TimedOut
        },
        (BuildStep::List, BuildEvent::Answer(ready)) => if ready {
            BuildStep::Ready
        } else {
            BuildStep::Pause
        },
        (BuildStep::Pause, BuildEvent::Done) => BuildStep::LookAtClock,
        _ => BuildStep::Failed,
    }
}

/// `steps` are the steps that were taken to have the index, `events[i]` came of `steps[i]`.
pub open spec fn is_build(
    index_type: IndexType,
    steps: Seq<BuildStep>,
    events: Seq<BuildEvent>,
) -> bool {
    &&& steps.len() > 0
    &&& events.len() + 1 == steps.len()
    &&& steps[0] == BuildStep::Create
    &&& forall|i: int|
        0 <= i < events.len() ==> steps[i + 1] == next_build_step(
            index_type,
            steps[i],
            #[trigger] events[i],
        )
}

/// An IVF index counts as ready only when a listing showed it so, a vector-graph index only
/// when the request to create it succeeded. A vector-graph index is never waited for.
pub proof fn law_ready_is_observed(
    index_type: IndexType,
    steps: Seq<BuildStep>,
    events: Seq<BuildEvent>,
    i: int,
)
    requires
        is_build(index_type, steps, events),
        0 <= i < steps.len(),
    ensures
        index_type == IndexType::Ivf && steps[i] is Ready ==> exists|j: int|
            0 <= j < i && steps[j] is List && #[trigger] events[j] == BuildEvent::Answer(true),
        index_type == IndexType::VectorGraph && steps[i] is Ready ==> i > 0 && events[0]
            == BuildEvent::Done,
        index_type == IndexType::VectorGraph ==> steps[i] is Create || steps[i] is Ready
            || steps[i] is Failed,
    decreases i,
{
    if i > 0 {
        let p = i - 1;
        law_ready_is_observed(index_type, steps, events, p);
        assert(steps[p + 1] == next_build_step(index_type, steps[p], events[p]));
        if index_type == IndexType::Ivf && steps[i] is Ready {
            if steps[p] is Ready {
                let j = choose|j: int|
                    0 <= j < p && steps[j] is List && #[trigger] events[j] == BuildEvent::Answer(
                        true,
                    );
                assert(0 <= j < i && steps[j] is List && events[j] == BuildEvent::Answer(true));
            } else {
                assert(steps[p] is List && events[p] == BuildEvent::Answer(true));
            }
        }
        if index_type == IndexType::VectorGraph && steps[i] is Ready && steps[p] is Create {
            law_create_comes_first(index_type, steps, events, p);
        }
    }
}

/// An index that is trained is waited for as long as there is time, even where the request to
/// create it failed: it is looked for whenever there is time left, waited for whenever it is not
/// ready, and given up only when the time is up. A vector-graph index that could not be created
/// is a failure at once.
pub proof fn law_training_is_waited_for(
    index_type: IndexType,
    steps: Seq<BuildStep>,
    events: Seq<BuildEvent>,
    i: int,
)
    requires
        is_build(index_type, steps, events),
        0 < i < steps.len(),
    ensures
        ({
            let step = steps[i - 1];
            let event = events[i - 1];
            let asked = event == BuildEvent::Done || event == BuildEvent::Failure;
            &&& index_type == IndexType::Ivf && step is Create && asked ==> steps[i] is LookAtClock
            &&& index_type == IndexType::VectorGraph && step is Create ==> (steps[i] is Ready
                <==> event == BuildEvent::Done)
            &&& steps[i] is LookAtClock ==> step is Pause || (step is Create && asked)
            &&& steps[i] is List <==> step is LookAtClock && event == BuildEvent::Answer(true)
            &&& steps[i] is Pause <==> step is List && event == BuildEvent::Answer(false)
            &&& steps[i] is TimedOut <==> step is TimedOut || (step is LookAtClock && event
                == BuildEvent::Answer(false))
            &&& step is Pause && event == BuildEvent::Done ==> steps[i] is LookAtClock
            &&& step is List && event == BuildEvent::Answer(true) ==> steps[i] is Ready
            &&& step is Ready ==> steps[i] is Ready
            &&& (step is List || step is Pause) && event == BuildEvent::Failure
                ==> steps[i] is Failed
        }),
{
    let p = i - 1;
    assert(steps[p + 1] == next_build_step(index_type, steps[p], events[p]));
}

/// The request to create the index is made once, at the start.
pub proof fn law_create_comes_first(
    index_type: IndexType,
    steps: Seq<BuildStep>,
    events: Seq<BuildEvent>,
    i: int,
)
    requires
        is_build(index_type, steps, events),
        0 <= i < steps.len(),
        steps[i] is Create,
    ensures
        i == 0,
{
    if i > 0 {
        let p = i - 1;
        assert(steps[p + 1] == next_build_step(index_type, steps[p], events[p]));
    }
}

} // verus!
