//! The sqlite store for plainly-stored tasks: one mutable row per task. The
//! sqlite calls sit behind trusted wrappers whose contracts speak of one
//! abstract table from row id to row content; the row handling around them
//! is verified.

use vstd::prelude::*;

use rusqlite::OptionalExtension;

use crate::error::StoreError;
use crate::task::{Cost, PlainTaskView, Priority, Task, ID};

verus! {

/// The content of one stored task row: title, closed flag, priority, cost,
/// elapsed seconds.
pub type TaskRow = (Seq<char>, bool, int, int, int);

/// The tasks table a connection reaches: the row stored under each id.
pub uninterp spec fn task_table(conn: rusqlite::Connection) -> Map<int, TaskRow>;

/// The view a task loaded from a row carries.
pub open spec fn row_view(id: int, row: TaskRow) -> PlainTaskView {
    PlainTaskView {
        id,
        title: row.0,
        is_closed: row.1,
        priority: row.2,
        cost: row.3,
        elapsed_time: row.4,
    }
}

/// Create the tasks table if it is not there yet.
///
/// Relies on rusqlite::Connection::execute_batch; CREATE TABLE IF NOT
/// EXISTS leaves an existing table, and its rows, alone.
#[verifier::external_body]
fn db_task_setup(conn: &mut rusqlite::Connection) -> (r: Result<(), StoreError>)
    ensures
        r matches Err(e) ==> e == StoreError::Storage,
        task_table(*final(conn)) == task_table(*old(conn)),
{
    conn.execute_batch(
        "CREATE TABLE if not exists tasks (
            id INTEGER PRIMARY KEY, title TEXT NOT NULL, is_closed INTEGER DEFAULT 0,
            priority INTEGER NOT NULL DEFAULT 10, cost INTEGER NOT NULL DEFAULT 10,
            elapsed_time_sec INTEGER NOT NULL DEFAULT 0,
            created_at TEXT NOT NULL DEFAULT (datetime(CURRENT_TIMESTAMP, 'localtime')),
            updated_at TEXT NOT NULL DEFAULT (datetime(CURRENT_TIMESTAMP, 'localtime')));",
    ).map_err(|_| StoreError::Storage)
}

/// Insert a task row; sqlite allocates the id.
///
/// Relies on rusqlite::Connection::execute running INSERT and
/// last_insert_rowid: the new row is stored under a row id no other row
/// holds.
#[verifier::external_body]
fn db_insert_task(
    conn: &mut rusqlite::Connection,
    title: &String,
    is_closed: bool,
    priority: i32,
    cost: i32,
    elapsed_time: u64,
) -> (r: Result<i64, StoreError>)
    ensures
        r matches Err(e) ==> e == StoreError::Storage,
        r matches Ok(id) ==> !task_table(*old(conn)).dom().contains(id as int) && task_table(
            *final(conn),
        ) == task_table(*old(conn)).insert(
            id as int,
            (title@, is_closed, priority as int, cost as int, elapsed_time as int),
        ),
        r is Err ==> task_table(*final(conn)) == task_table(*old(conn)),
{
    let res = conn.execute(
        "INSERT INTO tasks (title, is_closed, priority, cost, elapsed_time_sec)
         VALUES (?1, ?2, ?3, ?4, ?5)",
        (title.as_str(), is_closed, priority, cost, elapsed_time as i64),
    );
    match res {
        Ok(_) => Ok(conn.last_insert_rowid()),
        Err(_) => Err(StoreError::Storage),
    }
}

/// Overwrite the row under `id`; a missing id changes nothing.
///
/// Relies on rusqlite::Connection::execute running UPDATE ... WHERE id = ?:
/// only the matching row, if there is one, takes the new values.
#[verifier::external_body]
fn db_update_task(
    conn: &mut rusqlite::Connection,
    id: i64,
    title: &String,
    is_closed: bool,
    priority: i32,
    cost: i32,
    elapsed_time: u64,
) -> (r: Result<(), StoreError>)
    ensures
        r matches Err(e) ==> e == StoreError::Storage,
        r is Ok ==> task_table(*final(conn)) == (if task_table(*old(conn)).dom().contains(
            id as int,
        ) {
            task_table(*old(conn)).insert(
                id as int,
                (title@, is_closed, priority as int, cost as int, elapsed_time as int),
            )
        } else {
            task_table(*old(conn))
        }),
        r is Err ==> task_table(*final(conn)) == task_table(*old(conn)),
{
    conn.execute(
        "UPDATE tasks SET title = ?1, is_closed = ?2, priority = ?3, cost = ?4,
         elapsed_time_sec = ?5 where id = ?6",
        (title.as_str(), is_closed, priority, cost, elapsed_time as i64, id),
    ).map(|_| ()).map_err(|_| StoreError::Storage)
}

/// Fetch the row under `id`, if there is one.
///
/// Relies on rusqlite::Connection::query_row running SELECT ... WHERE on an
/// integer primary key: the matching row, or no row at all.
#[verifier::external_body]
fn db_find_task(conn: &rusqlite::Connection, id: i64) -> (r: Result<
    Option<(String, bool, i32, i32, u64)>,
    StoreError,
>)
    ensures
        r matches Err(e) ==> e == StoreError::Storage,
        r matches Ok(Some(row)) ==> task_table(*conn).dom().contains(id as int) && task_table(
            *conn,
        )[id as int] == (row.0@, row.1, row.2 as int, row.3 as int, row.4 as int),
        r matches Ok(None) ==> !task_table(*conn).dom().contains(id as int),
{
    conn.query_row(
        "SELECT title, is_closed, priority, cost, elapsed_time_sec FROM tasks where id = ?",
        [id],
        |row| {
            Ok((
                row.get::<_, String>(0)?,
                row.get::<_, bool>(1)?,
                row.get::<_, i32>(2)?,
                row.get::<_, i32>(3)?,
                row.get::<_, i64>(4)? as u64,
            ))
        },
    ).optional().map_err(|_| StoreError::Storage)
}

/// Whether every listed row sits in the table under its id, ids strictly
/// ascending.
pub open spec fn rows_from_table(
    m: Map<int, TaskRow>,
    rows: Seq<(i64, (Seq<char>, bool, int, int, int))>,
) -> bool {
    &&& (forall|i: int, j: int| 0 <= i < j < rows.len() ==> rows[i].0 < rows[j].0)
    &&& (forall|i: int|
        0 <= i < rows.len() ==> m.dom().contains((#[trigger] rows[i]).0 as int) && m[rows[i].0
            as int] == rows[i].1)
}

/// `ts` lists exactly the open rows of the table, ascending by id, each
/// task carrying its row's fields.
pub open spec fn lists_open_tasks(m: Map<int, TaskRow>, ts: Seq<Task>) -> bool {
    &&& (forall|i: int, j: int| 0 <= i < j < ts.len() ==> ts[i]@.id < ts[j]@.id)
    &&& (forall|i: int|
        0 <= i < ts.len() ==> {
            &&& m.dom().contains((#[trigger] ts[i])@.id)
            &&& ts[i]@ == row_view(ts[i]@.id, m[ts[i]@.id])
            &&& !ts[i]@.is_closed
        })
    &&& (forall|id: int|
        #[trigger] m.dom().contains(id) && !m[id].1 ==> exists|i: int|
            0 <= i < ts.len() && (#[trigger] ts[i])@.id == id)
}

/// `ts` lists exactly the rows of the table, ascending by id, each task
/// carrying its row's fields.
pub open spec fn lists_all_tasks(m: Map<int, TaskRow>, ts: Seq<Task>) -> bool {
    &&& (forall|i: int, j: int| 0 <= i < j < ts.len() ==> ts[i]@.id < ts[j]@.id)
    &&& (forall|i: int|
        0 <= i < ts.len() ==> {
            &&& m.dom().contains((#[trigger] ts[i])@.id)
            &&& ts[i]@ == row_view(ts[i]@.id, m[ts[i]@.id])
        })
    &&& (forall|id: int|
        #[trigger] m.dom().contains(id) ==> exists|i: int|
            0 <= i < ts.len() && (#[trigger] ts[i])@.id == id)
}

/// The exec shape of one fetched task row.
pub type TaskRowData = (i64, String, bool, i32, i32, u64);

/// The view of one fetched task row.
pub open spec fn row_data_view(row: TaskRowData) -> (i64, (Seq<char>, bool, int, int, int)) {
    (row.0, (row.1@, row.2, row.3 as int, row.4 as int, row.5 as int))
}

/// Fetch every open task row, ascending by id.
///
/// Relies on rusqlite::Statement::query_map running SELECT ... WHERE
/// is_closed = 0 ORDER BY id: exactly the open rows, each once, ascending —
/// no open row of the table is left out.
#[verifier::external_body]
fn db_open_tasks(conn: &rusqlite::Connection) -> (r: Result<Vec<TaskRowData>, StoreError>)
    ensures
        r matches Err(e) ==> e == StoreError::Storage,
        r matches Ok(rows) ==> rows_from_table(
            task_table(*conn),
            rows@.map_values(|row: TaskRowData| row_data_view(row)),
        ) && (forall|i: int| 0 <= i < rows@.len() ==> !(#[trigger] rows@[i]).2) && (forall|id: int|
            #[trigger] task_table(*conn).dom().contains(id) && !task_table(*conn)[id].1
                ==> exists|i: int| 0 <= i < rows@.len() && (#[trigger] rows@[i]).0 as int == id),
{
    let run = || -> rusqlite::Result<Vec<TaskRowData>> {
        let mut stmt = conn.prepare(
            "SELECT id, title, is_closed, priority, cost, elapsed_time_sec
             FROM tasks where is_closed = 0 ORDER BY id ASC",
        )?;
        let rows = stmt.query_map([], |row| {
            Ok((row.get::<_, i64>(0)?, row.get::<_, String>(1)?, row.get::<_, bool>(2)?,
                row.get::<_, i32>(3)?, row.get::<_, i32>(4)?, row.get::<_, i64>(5)? as u64))
        })?;
        rows.collect()
    };
    run().map_err(|_| StoreError::Storage)
}

/// Fetch every task row, ascending by id.
///
/// Relies on rusqlite::Statement::query_map running SELECT ... ORDER BY id:
/// every row, each once, ascending — no row of the table is left out.
#[verifier::external_body]
fn db_all_tasks(conn: &rusqlite::Connection) -> (r: Result<Vec<TaskRowData>, StoreError>)
    ensures
        r matches Err(e) ==> e == StoreError::Storage,
        r matches Ok(rows) ==> rows_from_table(
            task_table(*conn),
            rows@.map_values(|row: TaskRowData| row_data_view(row)),
        ) && (forall|id: int|
            #[trigger] task_table(*conn).dom().contains(id) ==> exists|i: int|
                0 <= i < rows@.len() && (#[trigger] rows@[i]).0 as int == id),
{
    let run = || -> rusqlite::Result<Vec<TaskRowData>> {
        let mut stmt = conn.prepare(
            "SELECT id, title, is_closed, priority, cost, elapsed_time_sec
             FROM tasks ORDER BY id ASC",
        )?;
        let rows = stmt.query_map([], |row| {
            Ok((row.get::<_, i64>(0)?, row.get::<_, String>(1)?, row.get::<_, bool>(2)?,
                row.get::<_, i32>(3)?, row.get::<_, i32>(4)?, row.get::<_, i64>(5)? as u64))
        })?;
        rows.collect()
    };
    run().map_err(|_| StoreError::Storage)
}

/// The sqlite-backed store for plainly-stored tasks.
pub struct TaskRepository {
    conn: rusqlite::Connection,
}

impl TaskRepository {
    /// The tasks table this repository reaches.
    pub closed spec fn table(self) -> Map<int, TaskRow> {
        task_table(self.conn)
    }

    /// Construct a TaskRepository over an open connection. The connection
    /// is the repository's alone from here on, and must not arrive with a
    /// transaction already open: each statement below runs in autocommit,
    /// so a failed one reverts only itself.
    pub fn new(conn: rusqlite::Connection) -> (r: TaskRepository)
        ensures
            r.table() == task_table(conn),
    {
        TaskRepository { conn }
    }

    /// Create the table; to be called once, before anything else. However
    /// often it runs, it never touches what the table holds.
    pub fn create_table_if_not_exists(&mut self) -> (r: Result<(), StoreError>)
        ensures
            final(self).table() == old(self).table(),
    {
        db_task_setup(&mut self.conn)
    }

    /// Find a task by id; an absent id is a normal, empty answer.
    pub fn find_by_id(&self, id: ID) -> (r: Result<Option<Task>, StoreError>)
        ensures
            r matches Ok(Some(t)) ==> self.table().dom().contains(id@) && t@ == row_view(
                id@,
                self.table()[id@],
            ),
            r matches Ok(None) ==> !self.table().dom().contains(id@),
    {
        match db_find_task(&self.conn, id.get()) {
            Ok(Some((title, is_closed, priority, cost, elapsed))) => Ok(
                Some(
                    Task::from_repository(
                        id,
                        title,
                        is_closed,
                        Priority::new(priority),
                        Cost::new(cost),
                        elapsed,
                    ),
                ),
            ),
            Ok(None) => Ok(None),
            Err(e) => Err(e),
        }
    }

    /// Every open task, ascending by id; no open row is left out.
    pub fn find_opening(&self) -> (r: Result<Vec<Task>, StoreError>)
        ensures
            r matches Ok(ts) ==> lists_open_tasks(self.table(), ts@),
    {
        let rows = match db_open_tasks(&self.conn) {
            Ok(rows) => rows,
            Err(e) => { return Err(e) },
        };
        let ts = tasks_from_rows(rows);
        proof {
            let m = self.table();
            let mapped = rows@.map_values(|row: TaskRowData| row_data_view(row));
            assert forall|i: int| 0 <= i < ts@.len() implies {
                &&& self.table().dom().contains((#[trigger] ts@[i])@.id)
                &&& ts@[i]@ == row_view(ts@[i]@.id, self.table()[ts@[i]@.id])
                &&& !ts@[i]@.is_closed
            } by {
                assert(m.dom().contains((#[trigger] mapped[i]).0 as int)
                    && m[mapped[i].0 as int] == mapped[i].1);
                assert(!rows@[i].2);
                assert(ts@[i]@ == row_view(rows@[i].0 as int, row_data_view(rows@[i]).1));
            }
            assert forall|i: int, j: int| 0 <= i < j < ts@.len() implies ts@[i]@.id
                < ts@[j]@.id by {
                assert(mapped[i].0 < mapped[j].0);
            }
            assert forall|id: int|
                #[trigger] self.table().dom().contains(id) && !self.table()[id].1 implies exists|
                i: int,
            | 0 <= i < ts@.len() && (#[trigger] ts@[i])@.id == id by {
                let w = choose|i: int| 0 <= i < rows@.len() && (#[trigger] rows@[i]).0 as int == id;
                assert(ts@[w]@.id == id);
            }
            assert(lists_open_tasks(self.table(), ts@));
        }
        Ok(ts)
    }

    /// Every task, ascending by id; no row is left out.
    pub fn fetch_all(&self) -> (r: Result<Vec<Task>, StoreError>)
        ensures
            r matches Ok(ts) ==> lists_all_tasks(self.table(), ts@),
    {
        let rows = match db_all_tasks(&self.conn) {
            Ok(rows) => rows,
            Err(e) => { return Err(e) },
        };
        let ts = tasks_from_rows(rows);
        proof {
            let m = self.table();
            let mapped = rows@.map_values(|row: TaskRowData| row_data_view(row));
            assert forall|i: int| 0 <= i < ts@.len() implies {
                &&& self.table().dom().contains((#[trigger] ts@[i])@.id)
                &&& ts@[i]@ == row_view(ts@[i]@.id, self.table()[ts@[i]@.id])
            } by {
                assert(m.dom().contains((#[trigger] mapped[i]).0 as int)
                    && m[mapped[i].0 as int] == mapped[i].1);
                assert(ts@[i]@ == row_view(rows@[i].0 as int, row_data_view(rows@[i]).1));
            }
            assert forall|i: int, j: int| 0 <= i < j < ts@.len() implies ts@[i]@.id
                < ts@[j]@.id by {
                assert(mapped[i].0 < mapped[j].0);
            }
            assert forall|id: int| #[trigger]
                self.table().dom().contains(id) implies exists|i: int|
                0 <= i < ts@.len() && (#[trigger] ts@[i])@.id == id by {
                let w = choose|i: int| 0 <= i < rows@.len() && (#[trigger] rows@[i]).0 as int == id;
                assert(ts@[w]@.id == id);
            }
            assert(lists_all_tasks(self.table(), ts@));
        }
        Ok(ts)
    }

    /// Store a new task; sqlite assigns the id it will live under.
    pub fn add(&mut self, a_task: Task) -> (r: Result<ID, StoreError>)
        ensures
            r matches Ok(id) ==> !old(self).table().dom().contains(id@) && final(self).table()
                == old(self).table().insert(
                id@,
                (
                    a_task@.title,
                    a_task@.is_closed,
                    a_task@.priority,
                    a_task@.cost,
                    a_task@.elapsed_time,
                ),
            ),
            r is Err ==> final(self).table() == old(self).table(),
    {
        let title = a_task.title().to_owned();
        let raw = db_insert_task(
            &mut self.conn,
            &title,
            a_task.is_closed(),
            a_task.priority().get(),
            a_task.cost().get(),
            a_task.elapsed_time(),
        );
        match raw {
            Ok(id) => Ok(ID::new(id)),
            Err(e) => Err(e),
        }
    }

    /// Overwrite a stored task under its own id; a missing id changes
    /// nothing.
    pub fn update(&mut self, a_task: Task) -> (r: Result<(), StoreError>)
        ensures
            r is Ok ==> final(self).table() == (if old(self).table().dom().contains(a_task@.id) {
                old(self).table().insert(
                    a_task@.id,
                    (
                        a_task@.title,
                        a_task@.is_closed,
                        a_task@.priority,
                        a_task@.cost,
                        a_task@.elapsed_time,
                    ),
                )
            } else {
                old(self).table()
            }),
            r is Err ==> final(self).table() == old(self).table(),
    {
        let title = a_task.title().to_owned();
        db_update_task(
            &mut self.conn,
            a_task.id().get(),
            &title,
            a_task.is_closed(),
            a_task.priority().get(),
            a_task.cost().get(),
            a_task.elapsed_time(),
        )
    }
}

/// Turn fetched rows into tasks, one for one.
fn tasks_from_rows(rows: Vec<TaskRowData>) -> (r: Vec<Task>)
    ensures
        r@.len() == rows@.len(),
        forall|i: int|
            0 <= i < r@.len() ==> (#[trigger] r@[i])@ == row_view(
                rows@[i].0 as int,
                row_data_view(rows@[i]).1,
            ),
{
    let mut out: Vec<Task> = Vec::new();
    let mut i: usize = 0;
    while i < rows.len()
        invariant
            i <= rows@.len(),
            out@.len() == i,
            forall|j: int|
                0 <= j < i ==> (#[trigger] out@[j])@ == row_view(
                    rows@[j].0 as int,
                    row_data_view(rows@[j]).1,
                ),
        decreases rows@.len() - i,
    {
        let row = &rows[i];
        out.push(
            Task::from_repository(
                ID::new(row.0),
                row.1.clone(),
                row.2,
                Priority::new(row.3),
                Cost::new(row.4),
                row.5,
            ),
        );
        i = i + 1;
    }
    out
}

} // verus!
