//! The event-sourced task aggregate: its value objects, its command and
//! event vocabularies, and the aggregate itself, whose state is always the
//! replay of its recorded history.

use vstd::prelude::*;

use crate::component::{
    AggregateID, Command, DomainEvent, DomainEventEnvelope, Entity, EnvelopeView, ValueObject,
    DOMAIN_EVENT_VERSION,
};

verus! {

/// The priority a task is created with when none is supplied.
pub const DEFAULT_PRIORITY: i32 = 10;

/// The cost a task is created with when none is supplied.
pub const DEFAULT_COST: i32 = 10;

/// Sequential ID: the small external-facing number of a task. It is assigned
/// lazily, when the task is first persisted, by the repository's counter.
#[derive(Debug, Clone, Copy, PartialEq, Eq, Structural)]
pub struct SequentialID(i64);

impl View for SequentialID {
    type V = int;

    closed spec fn view(&self) -> int {
        self.0 as int
    }
}

impl SequentialID {
    /// Construct a SequentialID.
    pub fn new(id: i64) -> (r: Self)
        ensures
            r@ == id as int,
    {
        SequentialID(id)
    }

    /// The id as a primitive.
    pub fn to_i64(&self) -> (r: i64)
        ensures
            r as int == self@,
    {
        self.0
    }
}

impl ValueObject for SequentialID {

}

/// Task priority.
#[derive(Debug, Clone, Copy, PartialEq, Eq, Structural)]
pub struct Priority(i32);

impl View for Priority {
    type V = int;

    closed spec fn view(&self) -> int {
        self.0 as int
    }
}

impl Priority {
    /// Construct a task priority.
    pub fn new(priority: i32) -> (r: Self)
        ensures
            r@ == priority as int,
    {
        Priority(priority)
    }

    /// The priority as a primitive.
    pub fn to_i32(&self) -> (r: i32)
        ensures
            r as int == self@,
    {
        self.0
    }
}

impl ValueObject for Priority {

}

/// Task cost.
#[derive(Debug, Clone, Copy, PartialEq, Eq, Structural)]
pub struct Cost(i32);

impl View for Cost {
    type V = int;

    closed spec fn view(&self) -> int {
        self.0 as int
    }
}

impl Cost {
    /// Construct a task cost.
    pub fn new(cost: i32) -> (r: Self)
        ensures
            r@ == cost as int,
    {
        Cost(cost)
    }

    /// The cost as a primitive.
    pub fn to_i32(&self) -> (r: i32)
        ensures
            r as int == self@,
    {
        self.0
    }
}

impl ValueObject for Cost {

}

/// The commands that ask a task to change.
#[derive(Debug, PartialEq, Eq)]
pub enum TaskCommand {
    Close,
    EditTitle { title: String },
    RescoreCost { cost: Cost },
    RescorePriority { priority: Priority },
}

impl Command for TaskCommand {

}

/// The events a task records when it changes.
#[derive(Debug, Clone, PartialEq, Eq)]
pub enum TaskDomainEvent {
    Created { aggregate_id: AggregateID, sequential_id: SequentialID },
    Closed,
    TitleEdited { title: String },
    CostRescored { cost: Cost },
    PriorityRescored { priority: Priority },
}

impl DomainEvent for TaskDomainEvent {

}

/// A task event, seen from specifications.
#[verifier::ext_equal]
pub ghost enum EventView {
    Created { aggregate_id: u128, sequential_id: int },
    Closed,
    TitleEdited { title: Seq<char> },
    CostRescored { cost: int },
    PriorityRescored { priority: int },
}

impl View for TaskDomainEvent {
    type V = EventView;

    open spec fn view(&self) -> EventView {
        match self {
            TaskDomainEvent::Created { aggregate_id, sequential_id } => EventView::Created {
                aggregate_id: aggregate_id@,
                sequential_id: sequential_id@,
            },
            TaskDomainEvent::Closed => EventView::Closed,
            TaskDomainEvent::TitleEdited { title } => EventView::TitleEdited { title: title@ },
            TaskDomainEvent::CostRescored { cost } => EventView::CostRescored { cost: cost@ },
            TaskDomainEvent::PriorityRescored { priority } => EventView::PriorityRescored {
                priority: priority@,
            },
        }
    }
}

/// The event a command gives rise to.
pub open spec fn command_event(c: TaskCommand) -> EventView {
    match c {
        TaskCommand::Close => EventView::Closed,
        TaskCommand::EditTitle { title } => EventView::TitleEdited { title: title@ },
        TaskCommand::RescoreCost { cost } => EventView::CostRescored { cost: cost@ },
        TaskCommand::RescorePriority { priority } => EventView::PriorityRescored {
            priority: priority@,
        },
    }
}

/// The observable state of a task: what events act on.
#[verifier::ext_equal]
pub ghost struct TaskState {
    pub aggregate_id: u128,
    pub title: Seq<char>,
    pub is_closed: bool,
    pub priority: int,
    pub cost: int,
}

/// The state of a task before any event: untitled, open, default scores.
pub open spec fn init_state(aggregate_id: u128) -> TaskState {
    TaskState {
        aggregate_id,
        title: Seq::empty(),
        is_closed: false,
        priority: DEFAULT_PRIORITY as int,
        cost: DEFAULT_COST as int,
    }
}

/// The pure state transition of a single event.
pub open spec fn apply_event(s: TaskState, e: EventView) -> TaskState {
    match e {
        EventView::Created { aggregate_id, sequential_id } => TaskState { aggregate_id, ..s },
        EventView::Closed => TaskState { is_closed: true, ..s },
        EventView::TitleEdited { title } => TaskState { title, ..s },
        EventView::CostRescored { cost } => TaskState { cost, ..s },
        EventView::PriorityRescored { priority } => TaskState { priority, ..s },
    }
}

/// Replaying a stream: fold `apply_event` over the events in order.
pub open spec fn replay(s: TaskState, es: Seq<EventView>) -> TaskState
    decreases es.len(),
{
    if es.len() == 0 {
        s
    } else {
        apply_event(replay(s, es.drop_last()), es.last())
    }
}

/// A task, seen from specifications: its fields, its buffered envelopes, the
/// identity it was constructed under, and the full history of events ever
/// applied to it.
#[verifier::ext_equal]
pub ghost struct TaskView {
    pub aggregate_id: u128,
    pub version: int,
    pub sequential_id: int,
    pub pending: Seq<EnvelopeView<EventView>>,
    pub title: Seq<char>,
    pub is_closed: bool,
    pub priority: int,
    pub cost: int,
    pub elapsed_time: int,
    pub origin: u128,
    pub history: Seq<EventView>,
}

/// The numeric fields an event carries all fit the machine widths they were
/// built from; true of the view of every executable event.
pub open spec fn event_bounded(e: EventView) -> bool {
    match e {
        EventView::Created { aggregate_id, sequential_id } => i64::MIN <= sequential_id
            <= i64::MAX,
        EventView::Closed => true,
        EventView::TitleEdited { title } => true,
        EventView::CostRescored { cost } => i32::MIN <= cost <= i32::MAX,
        EventView::PriorityRescored { priority } => i32::MIN <= priority <= i32::MAX,
    }
}

/// The observable state carried by a task view.
pub open spec fn state_of(v: TaskView) -> TaskState {
    TaskState {
        aggregate_id: v.aggregate_id,
        title: v.title,
        is_closed: v.is_closed,
        priority: v.priority,
        cost: v.cost,
    }
}

/// What `record_event` promises: the event is applied to the state, pushed
/// onto the history, buffered in an envelope at the pre-event version, and
/// the version moves up by one. Everything else stays.
pub open spec fn record_event_post(pre: TaskView, post: TaskView, ev: EventView) -> bool {
    &&& post.history == pre.history.push(ev)
    &&& post.version == pre.version + 1
    &&& state_of(post) == apply_event(state_of(pre), ev)
    &&& post.sequential_id == pre.sequential_id
    &&& post.elapsed_time == pre.elapsed_time
    &&& post.origin == pre.origin
    &&& post.pending.len() == pre.pending.len() + 1
    &&& post.pending.drop_last() == pre.pending
    &&& post.pending.last().event == ev
    &&& post.pending.last().aggregate_version == pre.version
    &&& post.pending.last().event_version == DOMAIN_EVENT_VERSION as int
    &&& i64::MIN <= post.pending.last().occurred_on <= i64::MAX
}

/// An optional priority, seen from specifications.
pub open spec fn priority_view(p: Option<Priority>) -> Option<int> {
    match p {
        Some(x) => Some(x@),
        None => None,
    }
}

/// An optional cost, seen from specifications.
pub open spec fn cost_view(c: Option<Cost>) -> Option<int> {
    match c {
        Some(x) => Some(x@),
        None => None,
    }
}

/// The exact event stream that creating a task records: `Created`, then
/// `TitleEdited`, then a rescore event for each override supplied.
pub open spec fn creation_events(
    aggregate_id: u128,
    sequential_id: int,
    title: Seq<char>,
    priority: Option<int>,
    cost: Option<int>,
) -> Seq<EventView> {
    let base = seq![
        EventView::Created { aggregate_id, sequential_id },
        EventView::TitleEdited { title },
    ];
    let with_priority = match priority {
        Some(p) => base.push(EventView::PriorityRescored { priority: p }),
        None => base,
    };
    match cost {
        Some(c) => with_priority.push(EventView::CostRescored { cost: c }),
        None => with_priority,
    }
}

/// `penv` buffers exactly `events`, one envelope each, at consecutive
/// versions starting at `base`.
pub open spec fn pending_covers_from(
    penv: Seq<EnvelopeView<EventView>>,
    events: Seq<EventView>,
    base: int,
) -> bool {
    &&& penv.len() == events.len()
    &&& forall|i: int|
        0 <= i < penv.len() ==> (#[trigger] penv[i]).event == events[i]
            && penv[i].aggregate_version == base + i && penv[i].event_version
            == DOMAIN_EVENT_VERSION as int
}

/// The error an aggregate itself can raise.
#[derive(Debug, Clone, Copy, PartialEq, Eq, Structural)]
pub enum TaskError {
    InvalidEvent,
}

/// Task is the aggregate representing one thing to do.
pub struct Task {
    aggregate_id: AggregateID,
    version: i32,
    sequential_id: SequentialID,
    events: Vec<DomainEventEnvelope<TaskDomainEvent>>,
    title: String,
    is_closed: bool,
    priority: Priority,
    cost: Cost,
    elapsed_time: u64,
    origin: Ghost<u128>,
    history: Ghost<Seq<EventView>>,
}

/// What a task is created from.
#[derive(Debug)]
pub struct TaskSource {
    pub aggregate_id: AggregateID,
    pub sequential_id: SequentialID,
    pub title: String,
    pub priority: Option<Priority>,
    pub cost: Option<Cost>,
}

impl View for Task {
    type V = TaskView;

    closed spec fn view(&self) -> TaskView {
        TaskView {
            aggregate_id: self.aggregate_id@,
            version: self.version as int,
            sequential_id: self.sequential_id@,
            pending: self.events@.map_values(|e: DomainEventEnvelope<TaskDomainEvent>| e@),
            title: self.title@,
            is_closed: self.is_closed,
            priority: self.priority@,
            cost: self.cost@,
            elapsed_time: self.elapsed_time as int,
            origin: self.origin@,
            history: self.history@,
        }
    }
}

impl Task {
    /// The aggregate's standing invariant: the version counts the events ever
    /// recorded, the state is exactly the replay of the history, and the
    /// pending buffer is the not-yet-persisted tail of that history, its
    /// envelopes carrying consecutive versions.
    pub open spec fn wf(self) -> bool {
        let v = self@;
        &&& v.version == v.history.len()
        &&& v.version <= i32::MAX
        &&& state_of(v) == replay(init_state(v.origin), v.history)
        &&& v.pending.len() <= v.history.len()
        &&& forall|i: int|
            0 <= i < v.pending.len() ==> {
                let j = v.history.len() - v.pending.len() + i;
                &&& (#[trigger] v.pending[i]).event == v.history[j]
                &&& v.pending[i].aggregate_version == j
                &&& v.pending[i].event_version == DOMAIN_EVENT_VERSION as int
                &&& i64::MIN <= v.pending[i].occurred_on <= i64::MAX
                &&& event_bounded(v.pending[i].event)
            }
    }

    /// Construct a default task under the given identities.
    fn new(aggregate_id: AggregateID, sequential_id: SequentialID) -> (t: Task)
        ensures
            t.wf(),
            t@.aggregate_id == aggregate_id@,
            t@.sequential_id == sequential_id@,
            t@.version == 0,
            t@.pending == Seq::<EnvelopeView<EventView>>::empty(),
            t@.history == Seq::<EventView>::empty(),
            t@.origin == aggregate_id@,
            t@.title == Seq::<char>::empty(),
            !t@.is_closed,
            t@.priority == DEFAULT_PRIORITY as int,
            t@.cost == DEFAULT_COST as int,
            t@.elapsed_time == 0,
    {
        let t = Task {
            aggregate_id,
            version: 0,
            sequential_id,
            events: Vec::new(),
            title: String::new(),
            is_closed: false,
            priority: Priority::new(DEFAULT_PRIORITY),
            cost: Cost::new(DEFAULT_COST),
            elapsed_time: 0,
            origin: Ghost(aggregate_id@),
            history: Ghost(Seq::empty()),
        };
        proof {
            assert(t@.pending =~= Seq::<EnvelopeView<EventView>>::empty());
            assert(state_of(t@) =~= replay(init_state(t@.origin), t@.history));
        }
        t
    }

    /// Apply an event to the in-memory state: the pure transition, recorded
    /// in the history but not buffered and not counted by the version.
    pub fn apply(&mut self, event: &TaskDomainEvent)
        ensures
            state_of(final(self)@) == apply_event(state_of(old(self)@), event@),
            final(self)@ == (TaskView {
                aggregate_id: final(self)@.aggregate_id,
                title: final(self)@.title,
                is_closed: final(self)@.is_closed,
                priority: final(self)@.priority,
                cost: final(self)@.cost,
                history: old(self)@.history.push(event@),
                ..old(self)@
            }),
    {
        proof {
            self.history@ = self.history@.push(event@);
        }
        match event {
            TaskDomainEvent::Created { aggregate_id, sequential_id } => {
                self.aggregate_id = *aggregate_id;
            },
            TaskDomainEvent::Closed => {
                self.is_closed = true;
            },
            TaskDomainEvent::TitleEdited { title } => {
                self.title = title.clone();
            },
            TaskDomainEvent::CostRescored { cost } => {
                self.cost = *cost;
            },
            TaskDomainEvent::PriorityRescored { priority } => {
                self.priority = *priority;
            },
        }
        proof {
            assert(state_of(final(self)@) =~= apply_event(state_of(old(self)@), event@));
            assert(final(self)@ =~= (TaskView {
                aggregate_id: final(self)@.aggregate_id,
                title: final(self)@.title,
                is_closed: final(self)@.is_closed,
                priority: final(self)@.priority,
                cost: final(self)@.cost,
                history: old(self)@.history.push(event@),
                ..old(self)@
            }));
        }
    }

    /// Record an event: apply it, buffer its envelope at the current version,
    /// and bump the version.
    pub fn record_event(&mut self, event: TaskDomainEvent)
        requires
            old(self).wf(),
            old(self)@.version < i32::MAX,
        ensures
            final(self).wf(),
            record_event_post(old(self)@, final(self)@, event@),
    {
        let ghost ev = event@;
        proof {
            assert(event_bounded(ev));
        }
        self.apply(&event);
        let envelope = DomainEventEnvelope::new(event, self.version, DOMAIN_EVENT_VERSION);
        self.events.push(envelope);
        self.increment_version();
        proof {
            assert(final(self)@.pending =~= old(self)@.pending.push(envelope@));
            assert(final(self)@.pending.drop_last() =~= old(self)@.pending);
            assert(state_of(final(self)@) =~= apply_event(state_of(old(self)@), ev));
            assert(replay(init_state(old(self)@.origin), old(self)@.history.push(ev))
                == apply_event(replay(init_state(old(self)@.origin), old(self)@.history), ev)) by {
                assert(old(self)@.history.push(ev).drop_last() =~= old(self)@.history);
            }
        }
    }

    /// Bump the version; done once per recorded event.
    fn increment_version(&mut self)
        requires
            old(self)@.version < i32::MAX,
        ensures
            final(self)@ == (TaskView { version: old(self)@.version + 1, ..old(self)@ }),
    {
        self.version = self.version + 1;
        proof {
            assert(final(self)@ =~= (TaskView { version: old(self)@.version + 1, ..old(self)@ }));
        }
    }

    /// The buffered envelopes that are not yet persisted.
    pub fn events(&self) -> (r: &Vec<DomainEventEnvelope<TaskDomainEvent>>)
        ensures
            r@.map_values(|e: DomainEventEnvelope<TaskDomainEvent>| e@) == self@.pending,
    {
        &self.events
    }

    /// Create a task: record `Created`, then `TitleEdited` with the supplied
    /// title, then a rescore event for each supplied override. Everything is
    /// left in the pending buffer, to be persisted as one batch.
    pub fn create(task_source: TaskSource) -> (t: Task)
        ensures
            t.wf(),
            t@.aggregate_id == task_source.aggregate_id@,
            t@.origin == task_source.aggregate_id@,
            t@.sequential_id == task_source.sequential_id@,
            t@.title == task_source.title@,
            !t@.is_closed,
            t@.priority == (match task_source.priority {
                Some(p) => p@,
                None => DEFAULT_PRIORITY as int,
            }),
            t@.cost == (match task_source.cost {
                Some(c) => c@,
                None => DEFAULT_COST as int,
            }),
            t@.elapsed_time == 0,
            t@.history == creation_events(
                task_source.aggregate_id@,
                task_source.sequential_id@,
                task_source.title@,
                priority_view(task_source.priority),
                cost_view(task_source.cost),
            ),
            t@.version == t@.history.len(),
            t@.pending.len() == t@.history.len(),
    {
        let ghost src = task_source;
        let mut task = Task::new(task_source.aggregate_id, task_source.sequential_id);
        task.record_event(TaskDomainEvent::Created {
            aggregate_id: task.aggregate_id(),
            sequential_id: task.sequential_id(),
        });
        task.edit_title(task_source.title);
        if let Some(p) = task_source.priority {
            task.rescore_priority(p);
        }
        if let Some(c) = task_source.cost {
            task.rescore_cost(c);
        }
        proof {
            assert(task@.history =~= creation_events(
                src.aggregate_id@,
                src.sequential_id@,
                src.title@,
                priority_view(src.priority),
                cost_view(src.cost),
            ));
        }
        task
    }

    /// Reconstruct a task by replaying a previously persisted stream.
    pub fn recreate(
        aggregate_id: AggregateID,
        sequential_id: SequentialID,
        events: Vec<DomainEventEnvelope<TaskDomainEvent>>,
    ) -> (t: Task)
        requires
            events@.len() <= i32::MAX,
        ensures
            t.wf(),
            t@.origin == aggregate_id@,
            t@.sequential_id == sequential_id@,
            t@.elapsed_time == 0,
            t@.pending == Seq::<EnvelopeView<EventView>>::empty(),
            t@.history == events@.map_values(
                |e: DomainEventEnvelope<TaskDomainEvent>| e@.event,
            ),
            t@.version == events@.len(),
    {
        let ghost evs = events@.map_values(|e: DomainEventEnvelope<TaskDomainEvent>| e@.event);
        let mut task = Task::new(aggregate_id, sequential_id);
        let mut k: usize = 0;
        while k < events.len()
            invariant
                k <= events.len(),
                events@.len() <= i32::MAX,
                evs == events@.map_values(|e: DomainEventEnvelope<TaskDomainEvent>| e@.event),
                task@.version == k,
                task@.history == evs.take(k as int),
                state_of(task@) == replay(init_state(aggregate_id@), evs.take(k as int)),
                task@.pending == Seq::<EnvelopeView<EventView>>::empty(),
                task@.origin == aggregate_id@,
                task@.sequential_id == sequential_id@,
                task@.elapsed_time == 0,
            decreases events@.len() - k,
        {
            task.apply(events[k].event());
            task.increment_version();
            k = k + 1;
            proof {
                assert(evs.take(k as int).drop_last() =~= evs.take(k - 1));
                assert(evs.take(k as int).last() == evs[k - 1]);
                assert(task@.history =~= evs.take(k as int));
            }
        }
        proof {
            assert(evs.take(events@.len() as int) =~= evs);
        }
        task
    }

    /// Execute a command: record the single event it gives rise to. No
    /// command is rejected at this level; policy lives in the use cases.
    pub fn execute(&mut self, command: TaskCommand) -> (r: Result<(), TaskError>)
        requires
            old(self).wf(),
            old(self)@.version < i32::MAX,
        ensures
            r is Ok,
            final(self).wf(),
            record_event_post(old(self)@, final(self)@, command_event(command)),
    {
        match command {
            TaskCommand::Close => self.close(),
            TaskCommand::EditTitle { title } => self.edit_title(title),
            TaskCommand::RescoreCost { cost } => self.rescore_cost(cost),
            TaskCommand::RescorePriority { priority } => self.rescore_priority(priority),
        }
        Ok(())
    }

    /// The identity the task was created under.
    pub fn aggregate_id(&self) -> (r: AggregateID)
        ensures
            r@ == self@.aggregate_id,
    {
        self.aggregate_id
    }

    /// The external-facing sequential id.
    pub fn sequential_id(&self) -> (r: SequentialID)
        ensures
            r@ == self@.sequential_id,
    {
        self.sequential_id
    }

    /// The number of events ever recorded for the aggregate.
    pub fn version(&self) -> (r: i32)
        ensures
            r as int == self@.version,
    {
        self.version
    }

    /// The title.
    pub fn title(&self) -> (r: &str)
        ensures
            r@ == self@.title,
    {
        self.title.as_str()
    }

    /// Record a title change.
    fn edit_title(&mut self, title: String)
        requires
            old(self).wf(),
            old(self)@.version < i32::MAX,
        ensures
            final(self).wf(),
            record_event_post(
                old(self)@,
                final(self)@,
                EventView::TitleEdited { title: title@ },
            ),
    {
        self.record_event(TaskDomainEvent::TitleEdited { title });
    }

    /// Whether the task has been closed.
    pub fn is_closed(&self) -> (r: bool)
        ensures
            r == self@.is_closed,
    {
        self.is_closed
    }

    /// Record that the task is closed.
    fn close(&mut self)
        requires
            old(self).wf(),
            old(self)@.version < i32::MAX,
        ensures
            final(self).wf(),
            record_event_post(old(self)@, final(self)@, EventView::Closed),
    {
        self.record_event(TaskDomainEvent::Closed);
    }

    /// The priority.
    pub fn priority(&self) -> (r: Priority)
        ensures
            r@ == self@.priority,
    {
        self.priority
    }

    /// Record a priority change.
    pub fn rescore_priority(&mut self, priority: Priority)
        requires
            old(self).wf(),
            old(self)@.version < i32::MAX,
        ensures
            final(self).wf(),
            record_event_post(
                old(self)@,
                final(self)@,
                EventView::PriorityRescored { priority: priority@ },
            ),
    {
        self.record_event(TaskDomainEvent::PriorityRescored { priority });
    }

    /// The cost.
    pub fn cost(&self) -> (r: Cost)
        ensures
            r@ == self@.cost,
    {
        self.cost
    }

    /// Record a cost change.
    pub fn rescore_cost(&mut self, cost: Cost)
        requires
            old(self).wf(),
            old(self)@.version < i32::MAX,
        ensures
            final(self).wf(),
            record_event_post(old(self)@, final(self)@, EventView::CostRescored { cost: cost@ }),
    {
        self.record_event(TaskDomainEvent::CostRescored { cost });
    }

    /// The accumulated working time, in seconds.
    pub fn elapsed_time(&self) -> (r: u64)
        ensures
            r as int == self@.elapsed_time,
    {
        self.elapsed_time
    }

    /// Drop the buffered envelopes; called by the repository once they are
    /// durably written, and by nobody else.
    pub fn clear_events(&mut self)
        ensures
            final(self)@ == (TaskView {
                pending: Seq::<EnvelopeView<EventView>>::empty(),
                ..old(self)@
            }),
    {
        self.events.clear();
        proof {
            assert(final(self)@.pending =~= Seq::<EnvelopeView<EventView>>::empty());
            assert(final(self)@ =~= (TaskView {
                pending: Seq::<EnvelopeView<EventView>>::empty(),
                ..old(self)@
            }));
        }
    }
}

impl Entity for Task {
    type Id = AggregateID;

    fn id(&self) -> Self::Id {
        self.aggregate_id()
    }
}

/// Two states that agree everywhere except possibly the aggregate identity.
pub open spec fn eq_but_aggregate(s1: TaskState, s2: TaskState) -> bool {
    &&& s1.title == s2.title
    &&& s1.is_closed == s2.is_closed
    &&& s1.priority == s2.priority
    &&& s1.cost == s2.cost
}

/// Whether a stream carries a `Created` event.
pub open spec fn has_created(es: Seq<EventView>) -> bool {
    exists|i: int| 0 <= i < es.len() && (#[trigger] es[i]) is Created
}

/// Replay does not look at the identity the initial state was seeded with:
/// only the aggregate-identity component can differ, and a `Created` event
/// anywhere in the stream erases even that difference.
pub proof fn lemma_replay_origin_independent(o1: u128, o2: u128, es: Seq<EventView>)
    ensures
        eq_but_aggregate(replay(init_state(o1), es), replay(init_state(o2), es)),
        has_created(es) ==> replay(init_state(o1), es) == replay(init_state(o2), es),
        !has_created(es) ==> replay(init_state(o1), es).aggregate_id == o1,
    decreases es.len(),
{
    if es.len() > 0 {
        lemma_replay_origin_independent(o1, o2, es.drop_last());
        if es.last() is Created {
            assert(has_created(es));
        } else {
            if has_created(es) {
                let i = choose|i: int| 0 <= i < es.len() && (#[trigger] es[i]) is Created;
                assert(es.drop_last()[i] is Created);
                assert(has_created(es.drop_last()));
            }
            if has_created(es.drop_last()) {
                let i = choose|i: int|
                    0 <= i < es.drop_last().len() && (#[trigger] es.drop_last()[i]) is Created;
                assert(es[i] is Created);
                assert(has_created(es));
            }
        }
    }
}

/// Replay determinism: two tasks built over the same identity from the same
/// ordered event stream have identical observable state and version, always.
pub proof fn lemma_replay_deterministic(t1: Task, t2: Task)
    requires
        t1.wf(),
        t2.wf(),
        t1@.origin == t2@.origin,
        t1@.history == t2@.history,
    ensures
        state_of(t1@) == state_of(t2@),
        t1@.version == t2@.version,
{
}

/// Version monotonicity: the version is exactly the number of events ever
/// recorded, however many saves the history spans.
pub proof fn lemma_version_counts_events(t: Task)
    requires
        t.wf(),
    ensures
        t@.version == t@.history.len(),
{
}

/// Round-trip: replaying a task's full recorded history under the identity
/// the task itself carries reproduces its observable state exactly, and the
/// replayed version is the task's version. Together with the repository's
/// contracts (a save appends precisely the encodings of the pending
/// envelopes, a load replays precisely the decoded stream) and the codec
/// round-trip, this is why a save followed by a load hands back the task
/// unchanged.
pub proof fn lemma_round_trip(t: Task)
    requires
        t.wf(),
    ensures
        replay(init_state(t@.aggregate_id), t@.history) == state_of(t@),
        t@.version == t@.history.len(),
{
    lemma_replay_origin_independent(t@.origin, t@.aggregate_id, t@.history);
    if has_created(t@.history) {
    } else {
        assert(t@.aggregate_id == t@.origin);
    }
    assert(replay(init_state(t@.aggregate_id), t@.history) =~= state_of(t@));
}

} // verus!
