//! Adding a plainly-stored task: build it with its defaults and store it.

use vstd::prelude::*;

use crate::error::UseCaseError;
use crate::task::{Cost, Priority, Task, ID};
use crate::task_repository::TaskRepository;

verus! {

/// What the caller supplies to add a task.
#[derive(Debug)]
pub struct AddTaskUseCaseInput {
    pub title: String,
    pub priority: Option<i32>,
    pub cost: Option<i32>,
}

/// Usecase to add a task.
pub struct AddTaskUseCase {
    task_repository: TaskRepository,
}

impl AddTaskUseCase {
    /// The tasks table the use case reaches.
    pub closed spec fn table(self) -> Map<int, crate::task_repository::TaskRow> {
        self.task_repository.table()
    }

    /// Construct the use case over its repository.
    pub fn new(task_repository: TaskRepository) -> (r: Self)
        ensures
            r.table() == task_repository.table(),
    {
        AddTaskUseCase { task_repository }
    }

    /// The repository underneath, for callers that read back.
    pub fn repository(&self) -> (r: &TaskRepository)
        ensures
            r.table() == self.table(),
    {
        &self.task_repository
    }

    /// Add a task: it is stored open, under a fresh id, with the given
    /// title and the supplied scores, or 10 for each score left out.
    pub fn execute(&mut self, input: AddTaskUseCaseInput) -> (r: Result<ID, UseCaseError>)
        ensures
            r matches Ok(id) ==> !old(self).table().dom().contains(id@) && final(self).table()
                == old(self).table().insert(
                id@,
                (
                    input.title@,
                    false,
                    match input.priority {
                        Some(p) => p as int,
                        None => 10,
                    },
                    match input.cost {
                        Some(c) => c as int,
                        None => 10,
                    },
                    0,
                ),
            ),
            r is Err ==> final(self).table() == old(self).table(),
    {
        let p: Option<Priority> = match input.priority {
            Some(v) => Some(Priority::new(v)),
            None => None,
        };
        let c: Option<Cost> = match input.cost {
            Some(v) => Some(Cost::new(v)),
            None => None,
        };
        let t = Task::new(input.title, p, c);
        match self.task_repository.add(t) {
            Ok(id) => Ok(id),
            Err(e) => Err(UseCaseError::Store(e)),
        }
    }
}

} // verus!
