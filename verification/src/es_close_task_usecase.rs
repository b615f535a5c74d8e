//! Closing a task: load it by its sequential id, refuse if it is gone or
//! already closed, record `Closed`, and persist that one event.

use vstd::prelude::*;

use crate::component::EnvelopeView;
use crate::error::{StoreError, UseCaseError};
use crate::es_task::{lemma_replay_origin_independent, EventView, SequentialID, TaskCommand};
use crate::es_task_repository::{
    decoded_events, insert_batch, key_of, loaded_from, stream_aggregate, stream_closed, stream_of,
    TaskRepository,
};
use crate::event_codec::spec_encode_envelope;

verus! {

/// What the caller supplies to close a task.
#[derive(Debug)]
pub struct CloseTaskUseCaseInput {
    pub sequential_id: SequentialID,
}

/// Usecase to close a task.
pub struct CloseTaskUseCase {
    repository: TaskRepository,
}

impl CloseTaskUseCase {
    /// The sequential-id table the use case reaches.
    pub closed spec fn issued(self) -> Map<Seq<u8>, int> {
        self.repository.issued()
    }

    /// The event table the use case reaches.
    pub closed spec fn rows(self) -> Map<(Seq<u8>, int), Seq<u8>> {
        self.repository.rows()
    }

    /// Construct the use case over its repository.
    pub fn new(repository: TaskRepository) -> (r: Self)
        ensures
            r.issued() == repository.issued(),
            r.rows() == repository.rows(),
    {
        CloseTaskUseCase { repository }
    }

    /// The repository underneath, for callers that read back.
    pub fn repository(&self) -> (r: &TaskRepository)
        ensures
            r.issued() == self.issued(),
            r.rows() == self.rows(),
    {
        &self.repository
    }

    /// Hand the repository back, for a caller that moves on to another
    /// use case over the same store.
    pub fn into_repository(self) -> (r: TaskRepository)
        ensures
            r.issued() == self.issued(),
            r.rows() == self.rows(),
    {
        self.repository
    }

    /// Close the task behind a sequential id. An unknown id is `NotFound`;
    /// a task already closed is `AlreadyClosed`, each carrying the id. On
    /// success the task was open, and its stream grew by exactly one
    /// `Closed` event at the stream's next version.
    pub fn execute(&mut self, input: CloseTaskUseCaseInput) -> (r: Result<
        SequentialID,
        UseCaseError,
    >)
        ensures
            r matches Ok(sid) ==> sid@ == input.sequential_id@ && exists|
                k: Seq<u8>,
                ps: Seq<Seq<u8>>,
                env: EnvelopeView<EventView>,
            |
                #![trigger stream_of(old(self).rows(), old(self).issued(), k, input.sequential_id@, ps), spec_encode_envelope(env)]
                {
                    &&& stream_of(old(self).rows(), old(self).issued(), k, input.sequential_id@, ps)
                    &&& !stream_closed(ps)
                    &&& env.event == EventView::Closed
                    &&& env.aggregate_version == ps.len()
                    &&& final(self).rows() == old(self).rows().insert(
                        (key_of(stream_aggregate(k, ps)), ps.len() as int),
                        spec_encode_envelope(env),
                    )
                    &&& final(self).issued() == old(self).issued()
                },
            r is Err ==> final(self).rows() == old(self).rows() && final(self).issued() == old(
                self,
            ).issued(),
            r matches Err(e) ==> match e {
                UseCaseError::NotFound(id) => id as int == input.sequential_id@ && (forall|
                    k: Seq<u8>,
                |
                    old(self).issued().dom().contains(k) ==> old(self).issued()[k]
                        != input.sequential_id@),
                UseCaseError::AlreadyClosed(id) => id as int == input.sequential_id@ && exists|
                    k: Seq<u8>,
                    ps: Seq<Seq<u8>>,
                |
                    #[trigger] stream_of(
                        old(self).rows(),
                        old(self).issued(),
                        k,
                        input.sequential_id@,
                        ps,
                    ) && stream_closed(ps),
                UseCaseError::Store(_) => true,
            },
    {
        let mut task = match self.repository.load_by_sequential_id(input.sequential_id) {
            Ok(Some(t)) => t,
            Ok(None) => { return Err(UseCaseError::NotFound(input.sequential_id.to_i64())) },
            Err(e) => { return Err(UseCaseError::Store(e)) },
        };
        let ghost (k0, ps0) = choose|k: Seq<u8>, ps: Seq<Seq<u8>>|
            #[trigger] loaded_from(
                self.repository.rows(),
                self.repository.issued(),
                k,
                input.sequential_id@,
                task@,
                ps,
            );
        proof {
            lemma_replay_origin_independent(task@.origin, 0, decoded_events(ps0));
            assert(stream_closed(ps0) == task@.is_closed);
            assert((crate::codec::dec_val(k0) as u128) == task@.origin);
            assert(stream_aggregate(k0, ps0) == task@.aggregate_id);
        }
        if task.is_closed() {
            proof {
                assert(stream_of(
                    old(self).rows(),
                    old(self).issued(),
                    k0,
                    input.sequential_id@,
                    ps0,
                ));
            }
            return Err(UseCaseError::AlreadyClosed(task.sequential_id().to_i64()));
        }
        if task.version() == i32::MAX {
            // A stream this long cannot carry another in-range version.
            return Err(UseCaseError::Store(StoreError::InvalidEvent));
        }
        let ghost aid0 = task@.aggregate_id;
        match task.execute(TaskCommand::Close) {
            Ok(()) => {},
            Err(_) => { return Err(UseCaseError::Store(StoreError::InvalidEvent)) },
        }
        let ghost env0 = task@.pending.last();
        proof {
            assert(task@.pending =~= seq![env0]);
        }
        match self.repository.save(&mut task) {
            Ok(()) => {},
            Err(e) => { return Err(UseCaseError::Store(e)) },
        }
        proof {
            let m = old(self).rows();
            let p = seq![env0];
            assert(insert_batch(m, key_of(aid0), p, 0) == m);
            assert(self.rows() == m.insert(
                (key_of(aid0), ps0.len() as int),
                spec_encode_envelope(env0),
            ));
            assert(stream_of(
                old(self).rows(),
                old(self).issued(),
                k0,
                input.sequential_id@,
                ps0,
            ));
        }
        Ok(task.sequential_id())
    }
}

} // verus!
