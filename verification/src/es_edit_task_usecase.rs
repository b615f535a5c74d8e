//! Editing a task: load it by its sequential id, refuse if it is gone or
//! already closed, record one event per supplied field, and persist them as
//! one batch.

use vstd::prelude::*;

use crate::component::EnvelopeView;
use crate::error::{StoreError, UseCaseError};
use crate::es_add_task_usecase::opt_view;
use crate::es_task::{
    lemma_replay_origin_independent, pending_covers_from, Cost, EventView, Priority, SequentialID,
    TaskCommand,
};
use crate::es_task_repository::{
    decoded_events, insert_batch, key_of, loaded_from, stream_aggregate, stream_closed, stream_of,
    TaskRepository,
};

verus! {

/// What the caller supplies to edit a task.
#[derive(Debug)]
pub struct EditTaskUseCaseInput {
    pub sequential_id: SequentialID,
    pub title: Option<String>,
    pub priority: Option<i32>,
    pub cost: Option<i32>,
}

/// An optional title, seen from specifications.
pub open spec fn title_view(t: Option<String>) -> Option<Seq<char>> {
    match t {
        Some(s) => Some(s@),
        None => None,
    }
}

/// The exact events an edit records: a `TitleEdited`, a `PriorityRescored`
/// and a `CostRescored`, in that order, one for each field supplied.
pub open spec fn edit_events(
    title: Option<Seq<char>>,
    priority: Option<int>,
    cost: Option<int>,
) -> Seq<EventView> {
    let base = Seq::<EventView>::empty();
    let with_title = match title {
        Some(t) => base.push(EventView::TitleEdited { title: t }),
        None => base,
    };
    let with_priority = match priority {
        Some(p) => with_title.push(EventView::PriorityRescored { priority: p }),
        None => with_title,
    };
    match cost {
        Some(c) => with_priority.push(EventView::CostRescored { cost: c }),
        None => with_priority,
    }
}

/// Usecase to edit a task.
pub struct EditTaskUseCase {
    repository: TaskRepository,
}

impl EditTaskUseCase {
    /// The sequential-id table the use case reaches.
    pub closed spec fn issued(self) -> Map<Seq<u8>, int> {
        self.repository.issued()
    }

    /// The event table the use case reaches.
    pub closed spec fn rows(self) -> Map<(Seq<u8>, int), Seq<u8>> {
        self.repository.rows()
    }

    /// Construct the use case over its repository.
    pub fn new(repository: TaskRepository) -> (r: Self)
        ensures
            r.issued() == repository.issued(),
            r.rows() == repository.rows(),
    {
        EditTaskUseCase { repository }
    }

    /// The repository underneath, for callers that read back.
    pub fn repository(&self) -> (r: &TaskRepository)
        ensures
            r.issued() == self.issued(),
            r.rows() == self.rows(),
    {
        &self.repository
    }

    /// Hand the repository back, for a caller that moves on to another
    /// use case over the same store.
    pub fn into_repository(self) -> (r: TaskRepository)
        ensures
            r.issued() == self.issued(),
            r.rows() == self.rows(),
    {
        self.repository
    }

    /// Edit the task behind a sequential id. An unknown id is `NotFound`; a
    /// task already closed is `AlreadyClosed`, each carrying the id. On
    /// success the task was open, and its stream grew by exactly one event
    /// per supplied field, in input order, at the stream's next versions.
    pub fn execute(&mut self, input: EditTaskUseCaseInput) -> (r: Result<
        SequentialID,
        UseCaseError,
    >)
        ensures
            r matches Ok(sid) ==> sid@ == input.sequential_id@ && exists|
                k: Seq<u8>,
                ps: Seq<Seq<u8>>,
                penv: Seq<EnvelopeView<EventView>>,
            |
                #![trigger insert_batch(old(self).rows(), key_of(stream_aggregate(k, ps)), penv, penv.len() as int)]
                {
                    &&& stream_of(old(self).rows(), old(self).issued(), k, input.sequential_id@, ps)
                    &&& !stream_closed(ps)
                    &&& pending_covers_from(
                        penv,
                        edit_events(
                            title_view(input.title),
                            opt_view(input.priority),
                            opt_view(input.cost),
                        ),
                        ps.len() as int,
                    )
                    &&& final(self).rows() == insert_batch(
                        old(self).rows(),
                        key_of(stream_aggregate(k, ps)),
                        penv,
                        penv.len() as int,
                    )
                    &&& final(self).issued() == old(self).issued()
                },
            r is Err ==> final(self).rows() == old(self).rows() && final(self).issued() == old(
                self,
            ).issued(),
            r matches Err(e) ==> match e {
                UseCaseError::NotFound(id) => id as int == input.sequential_id@ && (forall|
                    k: Seq<u8>,
                |
                    old(self).issued().dom().contains(k) ==> old(self).issued()[k]
                        != input.sequential_id@),
                UseCaseError::AlreadyClosed(id) => id as int == input.sequential_id@ && exists|
                    k: Seq<u8>,
                    ps: Seq<Seq<u8>>,
                |
                    #[trigger] stream_of(
                        old(self).rows(),
                        old(self).issued(),
                        k,
                        input.sequential_id@,
                        ps,
                    ) && stream_closed(ps),
                UseCaseError::Store(_) => true,
            },
    {
        let ghost evs = edit_events(
            title_view(input.title),
            opt_view(input.priority),
            opt_view(input.cost),
        );
        let mut task = match self.repository.load_by_sequential_id(input.sequential_id) {
            Ok(Some(t)) => t,
            Ok(None) => { return Err(UseCaseError::NotFound(input.sequential_id.to_i64())) },
            Err(e) => { return Err(UseCaseError::Store(e)) },
        };
        let ghost (k0, ps0) = choose|k: Seq<u8>, ps: Seq<Seq<u8>>|
            #[trigger] loaded_from(
                self.repository.rows(),
                self.repository.issued(),
                k,
                input.sequential_id@,
                task@,
                ps,
            );
        proof {
            lemma_replay_origin_independent(task@.origin, 0, decoded_events(ps0));
            assert(stream_closed(ps0) == task@.is_closed);
            assert((crate::codec::dec_val(k0) as u128) == task@.origin);
            assert(stream_aggregate(k0, ps0) == task@.aggregate_id);
        }
        if task.is_closed() {
            proof {
                assert(stream_of(
                    old(self).rows(),
                    old(self).issued(),
                    k0,
                    input.sequential_id@,
                    ps0,
                ));
            }
            return Err(UseCaseError::AlreadyClosed(task.sequential_id().to_i64()));
        }
        if task.version() > i32::MAX - 3 {
            // A stream this long cannot carry three more in-range versions.
            return Err(UseCaseError::Store(StoreError::InvalidEvent));
        }
        let ghost aid0 = task@.aggregate_id;
        if let Some(title) = input.title {
            match task.execute(TaskCommand::EditTitle { title }) {
                Ok(()) => {},
                Err(_) => { return Err(UseCaseError::Store(StoreError::InvalidEvent)) },
            }
        }
        if let Some(priority) = input.priority {
            match task.execute(TaskCommand::RescorePriority { priority: Priority::new(priority) }) {
                Ok(()) => {},
                Err(_) => { return Err(UseCaseError::Store(StoreError::InvalidEvent)) },
            }
        }
        if let Some(cost) = input.cost {
            match task.execute(TaskCommand::RescoreCost { cost: Cost::new(cost) }) {
                Ok(()) => {},
                Err(_) => { return Err(UseCaseError::Store(StoreError::InvalidEvent)) },
            }
        }
        let ghost penv0 = task@.pending;
        proof {
            assert(task@.history =~= decoded_events(ps0) + evs);
            assert(pending_covers_from(penv0, evs, ps0.len() as int));
            assert(task@.aggregate_id == aid0);
        }
        match self.repository.save(&mut task) {
            Ok(()) => {},
            Err(e) => { return Err(UseCaseError::Store(e)) },
        }
        proof {
            assert(self.rows() == insert_batch(
                old(self).rows(),
                key_of(stream_aggregate(k0, ps0)),
                penv0,
                penv0.len() as int,
            ));
            assert(stream_of(
                old(self).rows(),
                old(self).issued(),
                k0,
                input.sequential_id@,
                ps0,
            ));
        }
        Ok(task.sequential_id())
    }
}

} // verus!
