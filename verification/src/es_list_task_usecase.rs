//! Listing tasks: walk every sequential id ever issued, load and replay each
//! stream, drop the closed ones, and project the rest onto flat records.

use vstd::prelude::*;

use crate::error::UseCaseError;
use crate::es_task::{init_state, lemma_replay_origin_independent, replay, SequentialID, Task};
use crate::es_task_repository::{
    decoded_events, loaded_from, seq_lists_issued, stream_closed, stream_of, TaskRepository,
};

verus! {

/// What the caller supplies to list tasks.
#[derive(Debug)]
pub struct ListTaskUseCaseInput {}

/// One task, flattened for display.
#[derive(Debug, PartialEq, Eq)]
pub struct TaskDTO {
    pub id: i64,
    pub title: String,
    pub priority: i32,
    pub cost: i32,
}

/// The sequential id either appears among the listed entries, or some
/// stream held under it replays to a closed task.
pub open spec fn listed_or_closed(
    rows_m: Map<(Seq<u8>, int), Seq<u8>>,
    issued_m: Map<Seq<u8>, int>,
    id: int,
    dtos: Seq<TaskDTO>,
) -> bool {
    ||| exists|a: int| 0 <= a < dtos.len() && (#[trigger] dtos[a]).id as int == id
    ||| exists|k: Seq<u8>, ps: Seq<Seq<u8>>|
        #[trigger] stream_of(rows_m, issued_m, k, id, ps) && stream_closed(ps)
}

/// The store holds an open task under this sequential id whose replayed
/// state carries exactly these fields.
pub open spec fn open_entry(
    rows_m: Map<(Seq<u8>, int), Seq<u8>>,
    issued_m: Map<Seq<u8>, int>,
    id: int,
    title: Seq<char>,
    priority: int,
    cost: int,
) -> bool {
    exists|k: Seq<u8>, ps: Seq<Seq<u8>>|
        #![trigger stream_of(rows_m, issued_m, k, id, ps)]
        {
            &&& stream_of(rows_m, issued_m, k, id, ps)
            &&& !stream_closed(ps)
            &&& ({
                let s = replay(init_state(0), decoded_events(ps));
                title == s.title && priority == s.priority && cost == s.cost
            })
        }
}

/// A task resolved from a sequential id and found open is an open entry of
/// the store, carrying its own title, priority and cost.
proof fn lemma_open_entry_of_resolved(
    rows_m: Map<(Seq<u8>, int), Seq<u8>>,
    issued_m: Map<Seq<u8>, int>,
    sid: int,
    t: Task,
)
    requires
        crate::es_task_repository::resolved_task(rows_m, issued_m, sid, t),
        !t@.is_closed,
    ensures
        open_entry(rows_m, issued_m, sid, t@.title, t@.priority, t@.cost),
{
    let (k0, ps0) = choose|k: Seq<u8>, ps: Seq<Seq<u8>>|
        #[trigger] loaded_from(rows_m, issued_m, k, sid, t@, ps);
    lemma_replay_origin_independent(t@.origin, 0, decoded_events(ps0));
    assert(stream_of(rows_m, issued_m, k0, sid, ps0) && !stream_closed(ps0));
}

/// Usecase to list tasks.
pub struct ListTaskUseCase {
    repository: TaskRepository,
}

impl ListTaskUseCase {
    /// The sequential-id table the use case reaches.
    pub closed spec fn issued(self) -> Map<Seq<u8>, int> {
        self.repository.issued()
    }

    /// The event table the use case reaches.
    pub closed spec fn rows(self) -> Map<(Seq<u8>, int), Seq<u8>> {
        self.repository.rows()
    }

    /// Construct the use case over its repository.
    pub fn new(repository: TaskRepository) -> (r: Self)
        ensures
            r.issued() == repository.issued(),
            r.rows() == repository.rows(),
    {
        ListTaskUseCase { repository }
    }

    /// The repository underneath, for callers that read back.
    pub fn repository(&self) -> (r: &TaskRepository)
        ensures
            r.issued() == self.issued(),
            r.rows() == self.rows(),
    {
        &self.repository
    }

    /// Hand the repository back, for a caller that moves on to another
    /// use case over the same store.
    pub fn into_repository(self) -> (r: TaskRepository)
        ensures
            r.issued() == self.issued(),
            r.rows() == self.rows(),
    {
        self.repository
    }

    /// List every open task: ascending by sequential id, each entry an open
    /// task the store holds, carrying the title, priority and cost its
    /// stream replays to. Closed tasks, and only they, are left out: every
    /// issued id is either listed or belongs to a stream that replays to a
    /// closed task.
    #[verifier::rlimit(100)]
    pub fn execute(&self, input: ListTaskUseCaseInput) -> (r: Result<Vec<TaskDTO>, UseCaseError>)
        ensures
            r matches Ok(dtos) ==> {
                &&& (forall|a: int, b: int|
                    0 <= a < b < dtos@.len() ==> dtos@[a].id < dtos@[b].id)
                &&& (forall|a: int|
                    0 <= a < dtos@.len() ==> open_entry(
                        self.rows(),
                        self.issued(),
                        (#[trigger] dtos@[a]).id as int,
                        dtos@[a].title@,
                        dtos@[a].priority as int,
                        dtos@[a].cost as int,
                    ))
                &&& (forall|k: Seq<u8>|
                    #[trigger] self.issued().dom().contains(k) ==> listed_or_closed(
                        self.rows(),
                        self.issued(),
                        self.issued()[k],
                        dtos@,
                    ))
            },
    {
        let sids = match self.repository.load_all_sequential_ids() {
            Ok(s) => s,
            Err(e) => { return Err(UseCaseError::Store(e)) },
        };
        let ghost vs = sids@.map_values(|s: SequentialID| s@);
        let mut dtos: Vec<TaskDTO> = Vec::new();
        let mut i: usize = 0;
        while i < sids.len()
            invariant
                i <= sids@.len(),
                vs == sids@.map_values(|s: SequentialID| s@),
                seq_lists_issued(vs, self.issued()),
                self.rows() == self.repository.rows(),
                self.issued() == self.repository.issued(),
                forall|a: int|
                    0 <= a < dtos@.len() ==> exists|j: int|
                        0 <= j < i && (#[trigger] dtos@[a]).id as int == vs[j],
                forall|a: int, b: int| 0 <= a < b < dtos@.len() ==> dtos@[a].id < dtos@[b].id,
                forall|a: int|
                    0 <= a < dtos@.len() ==> open_entry(
                        self.rows(),
                        self.issued(),
                        (#[trigger] dtos@[a]).id as int,
                        dtos@[a].title@,
                        dtos@[a].priority as int,
                        dtos@[a].cost as int,
                    ),
                forall|j: int|
                    0 <= j < i ==> listed_or_closed(
                        self.rows(),
                        self.issued(),
                        #[trigger] vs[j],
                        dtos@,
                    ),
            decreases sids@.len() - i,
        {
            let sid = sids[i];
            let ghost dtos_pre = dtos@;
            match self.repository.load_by_sequential_id(sid) {
                Ok(Some(task)) => {
                    let ghost (kc, psc) = choose|k: Seq<u8>, ps: Seq<Seq<u8>>|
                        #[trigger] loaded_from(
                            self.repository.rows(),
                            self.repository.issued(),
                            k,
                            sid@,
                            task@,
                            ps,
                        );
                    proof {
                        lemma_replay_origin_independent(task@.origin, 0, decoded_events(psc));
                        assert(stream_closed(psc) == task@.is_closed);
                    }
                    if !task.is_closed() {
                        proof {
                            lemma_open_entry_of_resolved(
                                self.rows(),
                                self.issued(),
                                sid@,
                                task,
                            );
                        }
                        let dto = TaskDTO {
                            id: sid.to_i64(),
                            title: task.title().to_owned(),
                            priority: task.priority().to_i32(),
                            cost: task.cost().to_i32(),
                        };
                        dtos.push(dto);
                        proof {
                            assert(dtos@.last().id as int == vs[i as int]);
                            assert forall|a: int| 0 <= a < dtos@.len() - 1 implies dtos@[a].id
                                < dtos@.last().id by {
                                let ja = choose|j: int|
                                    0 <= j < i && (#[trigger] dtos@[a]).id as int == vs[j];
                                assert(vs[ja] < vs[i as int]);
                            }
                        }
                    } else {
                        proof {
                            assert(stream_of(
                                self.rows(),
                                self.issued(),
                                kc,
                                sid@,
                                psc,
                            ) && stream_closed(psc));
                        }
                    }
                    proof {
                        assert forall|j: int| 0 <= j < i + 1 implies listed_or_closed(
                            self.rows(),
                            self.issued(),
                            #[trigger] vs[j],
                            dtos@,
                        ) by {
                            if j < i {
                                assert(listed_or_closed(
                                    self.rows(),
                                    self.issued(),
                                    vs[j],
                                    dtos_pre,
                                ));
                                if exists|a: int|
                                    0 <= a < dtos_pre.len() && (#[trigger] dtos_pre[a]).id as int
                                        == vs[j] {
                                    let a = choose|a: int|
                                        0 <= a < dtos_pre.len() && (#[trigger] dtos_pre[a]).id
                                            as int == vs[j];
                                    assert(dtos@[a].id as int == vs[j]);
                                }
                            } else {
                                if !task@.is_closed {
                                    assert(dtos@[dtos@.len() - 1].id as int == vs[j]);
                                }
                            }
                        }
                    }
                },
                Ok(None) => { return Err(UseCaseError::NotFound(sid.to_i64())) },
                Err(e) => { return Err(UseCaseError::Store(e)) },
            }
            i = i + 1;
        }
        proof {
            assert forall|k: Seq<u8>| #[trigger]
                self.issued().dom().contains(k) implies listed_or_closed(
                self.rows(),
                self.issued(),
                self.issued()[k],
                dtos@,
            ) by {
                let j = choose|j: int| 0 <= j < vs.len() && vs[j] == self.issued()[k];
                assert(listed_or_closed(self.rows(), self.issued(), vs[j], dtos@));
            }
        }
        Ok(dtos)
    }
}

} // verus!
