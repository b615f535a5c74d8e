//! Editing a plainly-stored task: find it, refuse if it is gone or already
//! closed, overwrite each supplied field and store it back.

use vstd::prelude::*;

use crate::error::UseCaseError;
use crate::task::{Cost, Priority, ID};
use crate::task_repository::{TaskRepository, TaskRow};

verus! {

/// What the caller supplies to edit a task.
#[derive(Debug)]
pub struct EditTaskUseCaseInput {
    pub id: i64,
    pub title: Option<String>,
    pub priority: Option<i32>,
    pub cost: Option<i32>,
}

/// The row an edit leaves behind: each supplied field replaced, the rest,
/// and the closed flag, untouched.
pub open spec fn edited_row(
    row: TaskRow,
    title: Option<Seq<char>>,
    priority: Option<int>,
    cost: Option<int>,
) -> TaskRow {
    (
        match title {
            Some(t) => t,
            None => row.0,
        },
        row.1,
        match priority {
            Some(p) => p,
            None => row.2,
        },
        match cost {
            Some(c) => c,
            None => row.3,
        },
        row.4,
    )
}

/// Usecase to edit a task.
pub struct EditTaskUseCase {
    task_repository: TaskRepository,
}

impl EditTaskUseCase {
    /// The tasks table the use case reaches.
    pub closed spec fn table(self) -> Map<int, TaskRow> {
        self.task_repository.table()
    }

    /// Construct the use case over its repository.
    pub fn new(task_repository: TaskRepository) -> (r: Self)
        ensures
            r.table() == task_repository.table(),
    {
        EditTaskUseCase { task_repository }
    }

    /// The repository underneath, for callers that read back.
    pub fn repository(&self) -> (r: &TaskRepository)
        ensures
            r.table() == self.table(),
    {
        &self.task_repository
    }

    /// Edit the task behind an id. An unknown id is `NotFound`; a task
    /// already closed is `AlreadyClosed`, each carrying the id. On success
    /// the task was open, and its row now carries each supplied field, the
    /// others unmoved.
    pub fn execute(&mut self, input: EditTaskUseCaseInput) -> (r: Result<ID, UseCaseError>)
        ensures
            r matches Ok(rid) ==> {
                &&& rid@ == input.id as int
                &&& old(self).table().dom().contains(input.id as int)
                &&& !old(self).table()[input.id as int].1
                &&& final(self).table() == old(self).table().insert(
                    input.id as int,
                    edited_row(
                        old(self).table()[input.id as int],
                        match input.title {
                            Some(t) => Some(t@),
                            None => None,
                        },
                        match input.priority {
                            Some(p) => Some(p as int),
                            None => None,
                        },
                        match input.cost {
                            Some(c) => Some(c as int),
                            None => None,
                        },
                    ),
                )
            },
            r matches Err(e) ==> final(self).table() == old(self).table() && match e {
                UseCaseError::NotFound(id) => id == input.id && !old(self).table().dom().contains(
                    input.id as int,
                ),
                UseCaseError::AlreadyClosed(id) => id == input.id && old(
                    self,
                ).table().dom().contains(input.id as int) && old(self).table()[input.id as int].1,
                UseCaseError::Store(_) => true,
            },
    {
        let mut t = match self.task_repository.find_by_id(ID::new(input.id)) {
            Ok(Some(t)) => t,
            Ok(None) => { return Err(UseCaseError::NotFound(input.id)) },
            Err(e) => { return Err(UseCaseError::Store(e)) },
        };
        let id = t.id();
        if t.is_closed() {
            return Err(UseCaseError::AlreadyClosed(id.get()));
        }
        if let Some(title) = input.title {
            t.edit_title(title);
        }
        if let Some(priority) = input.priority {
            t.rescore_priority(Priority::new(priority));
        }
        if let Some(cost) = input.cost {
            t.rescore_cost(Cost::new(cost));
        }
        match self.task_repository.update(t) {
            Ok(()) => Ok(id),
            Err(e) => Err(UseCaseError::Store(e)),
        }
    }
}

} // verus!
