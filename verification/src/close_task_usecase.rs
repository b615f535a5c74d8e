//! Closing a plainly-stored task: find it, refuse if it is gone or already
//! closed, flip its flag and store it back.

use vstd::prelude::*;

use crate::error::UseCaseError;
use crate::task::ID;
use crate::task_repository::{TaskRepository, TaskRow};

verus! {

/// What the caller supplies to close a task.
#[derive(Debug)]
pub struct CloseTaskUseCaseInput {
    pub id: i64,
}

/// Usecase to close a task.
pub struct CloseTaskUseCase {
    task_repository: TaskRepository,
}

impl CloseTaskUseCase {
    /// The tasks table the use case reaches.
    pub closed spec fn table(self) -> Map<int, TaskRow> {
        self.task_repository.table()
    }

    /// Construct the use case over its repository.
    pub fn new(task_repository: TaskRepository) -> (r: Self)
        ensures
            r.table() == task_repository.table(),
    {
        CloseTaskUseCase { task_repository }
    }

    /// The repository underneath, for callers that read back.
    pub fn repository(&self) -> (r: &TaskRepository)
        ensures
            r.table() == self.table(),
    {
        &self.task_repository
    }

    /// Close the task behind an id. An unknown id is `NotFound`; a task
    /// already closed is `AlreadyClosed`, each carrying the id. On success
    /// the task was open, and its row now carries the closed flag, all
    /// other fields unmoved.
    pub fn execute(&mut self, input: CloseTaskUseCaseInput) -> (r: Result<ID, UseCaseError>)
        ensures
            r matches Ok(rid) ==> {
                &&& rid@ == input.id as int
                &&& old(self).table().dom().contains(input.id as int)
                &&& !old(self).table()[input.id as int].1
                &&& final(self).table() == old(self).table().insert(
                    input.id as int,
                    ({
                        let row = old(self).table()[input.id as int];
                        (row.0, true, row.2, row.3, row.4)
                    }),
                )
            },
            r matches Err(e) ==> final(self).table() == old(self).table() && match e {
                UseCaseError::NotFound(id) => id == input.id && !old(self).table().dom().contains(
                    input.id as int,
                ),
                UseCaseError::AlreadyClosed(id) => id == input.id && old(
                    self,
                ).table().dom().contains(input.id as int) && old(self).table()[input.id as int].1,
                UseCaseError::Store(_) => true,
            },
    {
        let mut t = match self.task_repository.find_by_id(ID::new(input.id)) {
            Ok(Some(t)) => t,
            Ok(None) => { return Err(UseCaseError::NotFound(input.id)) },
            Err(e) => { return Err(UseCaseError::Store(e)) },
        };
        let id = t.id();
        if t.is_closed() {
            return Err(UseCaseError::AlreadyClosed(id.get()));
        }
        t.close();
        match self.task_repository.update(t) {
            Ok(()) => Ok(id),
            Err(e) => Err(UseCaseError::Store(e)),
        }
    }
}

} // verus!
