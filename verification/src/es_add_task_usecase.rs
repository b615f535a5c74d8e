//! Adding a task: draw a fresh identity, have the repository issue its
//! sequential id, create the aggregate, persist its creation events as one
//! batch, and hand the sequential id back.

use vstd::prelude::*;

use crate::component::{AggregateID, EnvelopeView};
use crate::error::UseCaseError;
use crate::es_task::{
    creation_events, pending_covers_from, Cost, EventView, Priority, SequentialID, Task,
    TaskSource,
};
use crate::es_task_repository::{insert_batch, key_of, TaskRepository};

verus! {

/// What the caller supplies to add a task.
#[derive(Debug)]
pub struct AddTaskUseCaseInput {
    pub title: String,
    pub priority: Option<i32>,
    pub cost: Option<i32>,
}

/// An optional raw score, seen from specifications.
pub open spec fn opt_view(x: Option<i32>) -> Option<int> {
    match x {
        Some(v) => Some(v as int),
        None => None,
    }
}

/// Usecase to add a task.
pub struct AddTaskUseCase {
    repository: TaskRepository,
}

impl AddTaskUseCase {
    /// The sequential-id table the use case reaches.
    pub closed spec fn issued(self) -> Map<Seq<u8>, int> {
        self.repository.issued()
    }

    /// The event table the use case reaches.
    pub closed spec fn rows(self) -> Map<(Seq<u8>, int), Seq<u8>> {
        self.repository.rows()
    }

    /// Construct the use case over its repository.
    pub fn new(repository: TaskRepository) -> (r: Self)
        ensures
            r.issued() == repository.issued(),
            r.rows() == repository.rows(),
    {
        AddTaskUseCase { repository }
    }

    /// The repository underneath, for callers that read back.
    pub fn repository(&self) -> (r: &TaskRepository)
        ensures
            r.issued() == self.issued(),
            r.rows() == self.rows(),
    {
        &self.repository
    }

    /// Hand the repository back, for a caller that moves on to another
    /// use case over the same store.
    pub fn into_repository(self) -> (r: TaskRepository)
        ensures
            r.issued() == self.issued(),
            r.rows() == self.rows(),
    {
        self.repository
    }

    /// Add a task. On success, a fresh identity now holds the returned
    /// sequential id, above every id issued before, and the event table
    /// grew by exactly the creation batch: `Created`, `TitleEdited`, and a
    /// rescore event per supplied override, at versions counted from 0.
    pub fn execute(&mut self, input: AddTaskUseCaseInput) -> (r: Result<
        SequentialID,
        UseCaseError,
    >)
        ensures
            r matches Ok(sid) ==> exists|aid: u128, penv: Seq<EnvelopeView<EventView>>|
                #![trigger insert_batch(old(self).rows(), key_of(aid), penv, penv.len() as int)]
                {
                    &&& !old(self).issued().dom().contains(key_of(aid))
                    &&& final(self).issued() == old(self).issued().insert(key_of(aid), sid@)
                    &&& sid@ >= 1
                    &&& (forall|k: Seq<u8>|
                        old(self).issued().dom().contains(k) ==> old(self).issued()[k] < sid@)
                    &&& pending_covers_from(
                        penv,
                        creation_events(
                            aid,
                            sid@,
                            input.title@,
                            opt_view(input.priority),
                            opt_view(input.cost),
                        ),
                        0,
                    )
                    &&& final(self).rows() == insert_batch(
                        old(self).rows(),
                        key_of(aid),
                        penv,
                        penv.len() as int,
                    )
                },
            r is Err ==> final(self).rows() == old(self).rows() && (final(self).issued() == old(
                self,
            ).issued() || exists|k: Seq<u8>, id: int|
                !old(self).issued().dom().contains(k) && final(self).issued() == #[trigger] old(
                    self,
                ).issued().insert(k, id)),
    {
        let p: Option<Priority> = match input.priority {
            Some(v) => Some(Priority::new(v)),
            None => None,
        };
        let c: Option<Cost> = match input.cost {
            Some(v) => Some(Cost::new(v)),
            None => None,
        };
        let ghost title_view = input.title@;
        let aggregate_id = AggregateID::new();
        let sequential_id = match self.repository.issue_sequential_id(aggregate_id) {
            Ok(sid) => sid,
            Err(e) => { return Err(UseCaseError::Store(e)) },
        };
        let mut task = Task::create(TaskSource {
            aggregate_id,
            sequential_id,
            title: input.title,
            priority: p,
            cost: c,
        });
        let ghost penv = task@.pending;
        proof {
            assert(pending_covers_from(
                penv,
                creation_events(
                    aggregate_id@,
                    sequential_id@,
                    title_view,
                    opt_view(input.priority),
                    opt_view(input.cost),
                ),
                0,
            ));
        }
        match self.repository.save(&mut task) {
            Ok(()) => {},
            Err(e) => {
                proof {
                    assert(self.issued() == old(self).issued().insert(
                        key_of(aggregate_id@),
                        sequential_id@,
                    ));
                }
                return Err(UseCaseError::Store(e));
            },
        }
        proof {
            assert(self.rows() == insert_batch(
                old(self).rows(),
                key_of(aggregate_id@),
                penv,
                penv.len() as int,
            ));
        }
        Ok(task.sequential_id())
    }
}

} // verus!
