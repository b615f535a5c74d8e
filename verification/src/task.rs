//! The plainly-stored task entity: the same task data as the event-sourced
//! aggregate, but kept as one mutable row instead of a stream.

use vstd::prelude::*;

use crate::component::ValueObject;

verus! {

/// Task ID: the row id of a stored task.
#[derive(Debug, Clone, Copy, PartialEq, Eq, Structural)]
pub struct ID(i64);

impl View for ID {
    type V = int;

    closed spec fn view(&self) -> int {
        self.0 as int
    }
}

impl ID {
    /// Construct a task ID.
    pub fn new(id: i64) -> (r: Self)
        ensures
            r@ == id as int,
    {
        ID(id)
    }

    /// The id as a primitive.
    pub fn get(&self) -> (r: i64)
        ensures
            r as int == self@,
    {
        self.0
    }
}

impl ValueObject for ID {

}

/// Task priority.
#[derive(Debug, Clone, Copy, PartialEq, Eq, Structural)]
pub struct Priority(i32);

impl View for Priority {
    type V = int;

    closed spec fn view(&self) -> int {
        self.0 as int
    }
}

impl Priority {
    /// Construct a task priority.
    pub fn new(priority: i32) -> (r: Self)
        ensures
            r@ == priority as int,
    {
        Priority(priority)
    }

    /// The priority as a primitive.
    pub fn get(&self) -> (r: i32)
        ensures
            r as int == self@,
    {
        self.0
    }
}

impl ValueObject for Priority {

}

/// Task cost.
#[derive(Debug, Clone, Copy, PartialEq, Eq, Structural)]
pub struct Cost(i32);

impl View for Cost {
    type V = int;

    closed spec fn view(&self) -> int {
        self.0 as int
    }
}

impl Cost {
    /// Construct a task cost.
    pub fn new(cost: i32) -> (r: Self)
        ensures
            r@ == cost as int,
    {
        Cost(cost)
    }

    /// The cost as a primitive.
    pub fn get(&self) -> (r: i32)
        ensures
            r as int == self@,
    {
        self.0
    }
}

impl ValueObject for Cost {

}

/// A task, seen from specifications.
#[verifier::ext_equal]
pub ghost struct PlainTaskView {
    pub id: int,
    pub title: Seq<char>,
    pub is_closed: bool,
    pub priority: int,
    pub cost: int,
    pub elapsed_time: int,
}

/// Task is the entity representing one thing to do.
#[derive(Debug, PartialEq, Eq)]
pub struct Task {
    id: ID,
    title: String,
    is_closed: bool,
    priority: Priority,
    cost: Cost,
    elapsed_time: u64,
}

impl View for Task {
    type V = PlainTaskView;

    closed spec fn view(&self) -> PlainTaskView {
        PlainTaskView {
            id: self.id@,
            title: self.title@,
            is_closed: self.is_closed,
            priority: self.priority@,
            cost: self.cost@,
            elapsed_time: self.elapsed_time as int,
        }
    }
}

impl Task {
    /// Construct a new task: not yet stored (id 0), open, with the given
    /// title and the supplied scores, or the default of 10 for each score
    /// left out.
    pub fn new(title: String, a_priority: Option<Priority>, a_cost: Option<Cost>) -> (t: Task)
        ensures
            t@ == (PlainTaskView {
                id: 0,
                title: title@,
                is_closed: false,
                priority: match a_priority {
                    Some(p) => p@,
                    None => 10,
                },
                cost: match a_cost {
                    Some(c) => c@,
                    None => 10,
                },
                elapsed_time: 0,
            }),
    {
        let priority = match a_priority {
            Some(p) => p,
            None => Priority::new(10),
        };
        let cost = match a_cost {
            Some(c) => c,
            None => Cost::new(10),
        };
        let t = Task { id: ID::new(0), title, is_closed: false, priority, cost, elapsed_time: 0 };
        proof {
            assert(t@ =~= (PlainTaskView {
                id: 0,
                title: t@.title,
                is_closed: false,
                priority: t@.priority,
                cost: t@.cost,
                elapsed_time: 0,
            }));
        }
        t
    }

    /// Rebuild a stored task from its row. For the repository only.
    pub fn from_repository(
        id: ID,
        title: String,
        is_closed: bool,
        priority: Priority,
        cost: Cost,
        elapsed_time: u64,
    ) -> (t: Task)
        ensures
            t@ == (PlainTaskView {
                id: id@,
                title: title@,
                is_closed: is_closed,
                priority: priority@,
                cost: cost@,
                elapsed_time: elapsed_time as int,
            }),
    {
        Task { id, title, is_closed, priority, cost, elapsed_time }
    }

    /// The id.
    pub fn id(&self) -> (r: ID)
        ensures
            r@ == self@.id,
    {
        self.id
    }

    /// The title.
    pub fn title(&self) -> (r: &str)
        ensures
            r@ == self@.title,
    {
        self.title.as_str()
    }

    /// Change the title.
    pub fn edit_title(&mut self, title: String)
        ensures
            final(self)@ == (PlainTaskView { title: title@, ..old(self)@ }),
    {
        self.title = title;
        proof {
            assert(final(self)@ =~= (PlainTaskView { title: final(self)@.title, ..old(self)@ }));
        }
    }

    /// Whether the task has been closed.
    pub fn is_closed(&self) -> (r: bool)
        ensures
            r == self@.is_closed,
    {
        self.is_closed
    }

    /// Close the task.
    pub fn close(&mut self)
        ensures
            final(self)@ == (PlainTaskView { is_closed: true, ..old(self)@ }),
    {
        self.is_closed = true;
        proof {
            assert(final(self)@ =~= (PlainTaskView { is_closed: true, ..old(self)@ }));
        }
    }

    /// The priority.
    pub fn priority(&self) -> (r: Priority)
        ensures
            r@ == self@.priority,
    {
        self.priority
    }

    /// Change the priority.
    pub fn rescore_priority(&mut self, priority: Priority)
        ensures
            final(self)@ == (PlainTaskView { priority: priority@, ..old(self)@ }),
    {
        self.priority = priority;
        proof {
            assert(final(self)@ =~= (PlainTaskView { priority: priority@, ..old(self)@ }));
        }
    }

    /// The cost.
    pub fn cost(&self) -> (r: Cost)
        ensures
            r@ == self@.cost,
    {
        self.cost
    }

    /// Change the cost.
    pub fn rescore_cost(&mut self, cost: Cost)
        ensures
            final(self)@ == (PlainTaskView { cost: cost@, ..old(self)@ }),
    {
        self.cost = cost;
        proof {
            assert(final(self)@ =~= (PlainTaskView { cost: cost@, ..old(self)@ }));
        }
    }

    /// The accumulated working time, in seconds.
    pub fn elapsed_time(&self) -> (r: u64)
        ensures
            r as int == self@.elapsed_time,
    {
        self.elapsed_time
    }
}

} // verus!
