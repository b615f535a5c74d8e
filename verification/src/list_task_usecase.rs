//! Listing plainly-stored tasks: fetch the open rows and flatten them for
//! display.

use vstd::prelude::*;

use crate::error::UseCaseError;
use crate::task_repository::{TaskRepository, TaskRow};

verus! {

/// What the caller supplies to list tasks.
#[derive(Debug)]
pub struct ListTaskUseCaseInput {}

/// One task, flattened for display.
#[derive(Debug, PartialEq, Eq)]
pub struct TaskDTO {
    pub id: i64,
    pub title: String,
    pub priority: i32,
    pub cost: i32,
}

/// `dtos` lists exactly the open rows of the table: ascending by id, each
/// entry carrying its row's title, priority and cost, and every open row's
/// id appearing.
pub open spec fn listed_open_rows(m: Map<int, TaskRow>, dtos: Seq<TaskDTO>) -> bool {
    &&& (forall|a: int, b: int| 0 <= a < b < dtos.len() ==> dtos[a].id < dtos[b].id)
    &&& (forall|a: int|
        0 <= a < dtos.len() ==> {
            let row = m[(#[trigger] dtos[a]).id as int];
            &&& m.dom().contains(dtos[a].id as int)
            &&& !row.1
            &&& dtos[a].title@ == row.0
            &&& dtos[a].priority as int == row.2
            &&& dtos[a].cost as int == row.3
        })
    &&& (forall|id: int|
        #[trigger] m.dom().contains(id) && !m[id].1 ==> exists|a: int|
            0 <= a < dtos.len() && (#[trigger] dtos[a]).id as int == id)
}

/// Usecase to list tasks.
pub struct ListTaskUseCase {
    task_repository: TaskRepository,
}

impl ListTaskUseCase {
    /// The tasks table the use case reaches.
    pub closed spec fn table(self) -> Map<int, TaskRow> {
        self.task_repository.table()
    }

    /// Construct the use case over its repository.
    pub fn new(task_repository: TaskRepository) -> (r: Self)
        ensures
            r.table() == task_repository.table(),
    {
        ListTaskUseCase { task_repository }
    }

    /// The repository underneath, for callers that read back.
    pub fn repository(&self) -> (r: &TaskRepository)
        ensures
            r.table() == self.table(),
    {
        &self.task_repository
    }

    /// List every open task, ascending by id: each entry is a stored open
    /// row, carrying that row's title, priority and cost. Closed rows, and
    /// only they, are left out: every open row's id appears.
    pub fn execute(&self, input: ListTaskUseCaseInput) -> (r: Result<Vec<TaskDTO>, UseCaseError>)
        ensures
            r matches Ok(dtos) ==> listed_open_rows(self.table(), dtos@),
    {
        let tasks = match self.task_repository.find_opening() {
            Ok(ts) => ts,
            Err(e) => { return Err(UseCaseError::Store(e)) },
        };
        let mut dtos: Vec<TaskDTO> = Vec::new();
        let mut i: usize = 0;
        while i < tasks.len()
            invariant
                i <= tasks@.len(),
                dtos@.len() == i,
                self.table() == self.task_repository.table(),
                forall|a: int, b: int| 0 <= a < b < tasks@.len() ==> tasks@[a]@.id < tasks@[b]@.id,
                forall|a: int|
                    0 <= a < tasks@.len() ==> {
                        &&& self.table().dom().contains((#[trigger] tasks@[a])@.id)
                        &&& tasks@[a]@ == crate::task_repository::row_view(
                            tasks@[a]@.id,
                            self.table()[tasks@[a]@.id],
                        )
                        &&& !tasks@[a]@.is_closed
                    },
                forall|a: int|
                    0 <= a < i ==> (#[trigger] dtos@[a]).id as int == tasks@[a]@.id
                        && dtos@[a].title@ == tasks@[a]@.title && dtos@[a].priority as int
                        == tasks@[a]@.priority && dtos@[a].cost as int == tasks@[a]@.cost,
            decreases tasks@.len() - i,
        {
            let t = &tasks[i];
            dtos.push(TaskDTO {
                id: t.id().get(),
                title: t.title().to_owned(),
                priority: t.priority().get(),
                cost: t.cost().get(),
            });
            i = i + 1;
        }
        proof {
            assert forall|id: int|
                #[trigger] self.table().dom().contains(id) && !self.table()[id].1 implies exists|
                a: int,
            | 0 <= a < dtos@.len() && (#[trigger] dtos@[a]).id as int == id by {
                let w = choose|a: int| 0 <= a < tasks@.len() && (#[trigger] tasks@[a])@.id == id;
                assert(dtos@[w].id as int == id);
            }
            assert(listed_open_rows(self.table(), dtos@));
        }
        Ok(dtos)
    }
}

} // verus!
