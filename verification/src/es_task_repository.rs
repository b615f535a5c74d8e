//! The sqlite event store for tasks: one row per recorded envelope, keyed by
//! (aggregate identity, version), and a counter table that issues each task
//! its sequential id exactly once. All sqlite calls sit behind trusted
//! wrappers whose contracts speak of two abstract tables; everything done
//! with what the database hands back is verified.

use vstd::prelude::*;

use rusqlite::OptionalExtension;

use crate::codec::dec_digits;
use crate::component::{AggregateID, DomainEventEnvelope, EnvelopeView};
use crate::error::StoreError;
use crate::es_task::{EventView, SequentialID, Task, TaskDomainEvent, TaskView};
use crate::event_codec::{
    decode_envelope, encode_envelope, lemma_ascii_valid_utf8, spec_decode_envelope,
    spec_encode_envelope, utf8_text,
};

verus! {

#[verifier::external_type_specification]
#[verifier::external_body]
pub struct ExConnection(rusqlite::Connection);

#[verifier::external_type_specification]
#[verifier::external_body]
pub struct ExError(rusqlite::Error);

/// The sequential-id table a connection reaches: which identity key holds
/// which sequential id.
pub uninterp spec fn issued_ids(conn: rusqlite::Connection) -> Map<Seq<u8>, int>;

/// The event table a connection reaches: the payload stored under each
/// (identity key, version) pair.
pub uninterp spec fn event_rows(conn: rusqlite::Connection) -> Map<(Seq<u8>, int), Seq<u8>>;

/// The event table as it would stand after rolling back the transaction the
/// connection has open; the event table itself while none is open.
pub uninterp spec fn txn_rows(conn: rusqlite::Connection) -> Map<(Seq<u8>, int), Seq<u8>>;

/// The sequential-id table as it would stand after rolling back the
/// transaction the connection has open; the table itself while none is open.
pub uninterp spec fn txn_issued(conn: rusqlite::Connection) -> Map<Seq<u8>, int>;

/// The sequential-id table's AUTOINCREMENT mark: at least every id the
/// table has ever held; the next issuance lands one above it.
pub uninterp spec fn seq_high_water(conn: rusqlite::Connection) -> int;

/// The text key an aggregate identity is stored under.
pub open spec fn key_of(aggregate_id: u128) -> Seq<u8> {
    dec_digits(aggregate_id as nat)
}

/// Whether stored key bytes are one decimal run carrying an identity:
/// nonempty, digits to the end, value within the identity's width.
pub open spec fn decimal_key(k: Seq<u8>) -> bool {
    &&& k.len() > 0
    &&& crate::codec::run_end(k, 0) == k.len()
    &&& crate::codec::dec_val(k) <= u128::MAX
}

/// `vs` lists exactly the sequential ids held in `issued`, ascending.
pub open spec fn seq_lists_issued(vs: Seq<int>, issued: Map<Seq<u8>, int>) -> bool {
    &&& (forall|i: int, j: int| 0 <= i < j < vs.len() ==> vs[i] < vs[j])
    &&& (forall|i: int|
        0 <= i < vs.len() ==> exists|k: Seq<u8>|
            issued.dom().contains(k) && issued[k] == #[trigger] vs[i])
    &&& (forall|k: Seq<u8>|
        #[trigger] issued.dom().contains(k) ==> exists|i: int|
            0 <= i < vs.len() && vs[i] == issued[k])
}

/// `payloads` lists exactly the payloads stored for `key`, in ascending
/// version order.
pub open spec fn is_stream_listing(
    m: Map<(Seq<u8>, int), Seq<u8>>,
    key: Seq<u8>,
    payloads: Seq<Seq<u8>>,
) -> bool {
    exists|vs: Seq<int>|
        {
            &&& vs.len() == payloads.len()
            &&& (forall|i: int, j: int| 0 <= i < j < vs.len() ==> vs[i] < vs[j])
            &&& (forall|i: int|
                0 <= i < vs.len() ==> m.dom().contains((key, #[trigger] vs[i]))
                    && payloads[i] == m.index((key, vs[i])))
            &&& (forall|v: int| m.dom().contains((key, v)) ==> vs.contains(v))
        }
}

/// An empty listing means the store holds no row at all under the key.
pub proof fn lemma_empty_listing(m: Map<(Seq<u8>, int), Seq<u8>>, key: Seq<u8>, ps: Seq<Seq<u8>>)
    requires
        is_stream_listing(m, key, ps),
        ps.len() == 0,
    ensures
        forall|v: int| !m.dom().contains((key, v)),
{
    let vs = choose|vs: Seq<int>|
        {
            &&& vs.len() == ps.len()
            &&& (forall|i: int, j: int| 0 <= i < j < vs.len() ==> vs[i] < vs[j])
            &&& (forall|i: int|
                0 <= i < vs.len() ==> m.dom().contains((key, #[trigger] vs[i]))
                    && ps[i] == m.index((key, vs[i])))
            &&& (forall|v: int| m.dom().contains((key, v)) ==> vs.contains(v))
        };
    assert forall|v: int| !m.dom().contains((key, v)) by {
        if m.dom().contains((key, v)) {
            assert(vs.contains(v));
        }
    }
}

/// The event table after the envelopes `pending[..n]` have been written
/// under `key`, each at its own version.
pub open spec fn insert_batch(
    m: Map<(Seq<u8>, int), Seq<u8>>,
    key: Seq<u8>,
    pending: Seq<EnvelopeView<EventView>>,
    n: int,
) -> Map<(Seq<u8>, int), Seq<u8>>
    decreases n,
{
    if n <= 0 {
        m
    } else {
        insert_batch(m, key, pending, n - 1).insert(
            (key, pending[n - 1].aggregate_version),
            spec_encode_envelope(pending[n - 1]),
        )
    }
}

/// Sort an outside error into the store's taxonomy.
///
/// Relies on rusqlite::Error::sqlite_error_code: a violated primary-key or
/// uniqueness constraint reports SQLITE_CONSTRAINT.
#[verifier::external_body]
fn store_error_of(e: rusqlite::Error) -> StoreError {
    if e.sqlite_error_code() == Some(rusqlite::ffi::ErrorCode::ConstraintViolation) {
        StoreError::IdentityConflict
    } else {
        StoreError::Storage
    }
}

/// Run the schema statements: enable foreign keys, create both tables if
/// they are not there yet.
///
/// Relies on rusqlite::Connection::execute_batch; CREATE TABLE IF NOT EXISTS
/// leaves existing tables, and their rows, alone, and PRAGMA changes no
/// table either; the AUTOINCREMENT mark is untouched.
#[verifier::external_body]
fn db_setup(conn: &mut rusqlite::Connection) -> (r: Result<(), StoreError>)
    ensures
        r matches Err(e) ==> e == StoreError::Storage || e == StoreError::IdentityConflict,
        event_rows(*final(conn)) == event_rows(*old(conn)),
        issued_ids(*final(conn)) == issued_ids(*old(conn)),
        seq_high_water(*final(conn)) == seq_high_water(*old(conn)),
{
    conn.execute_batch(
        "PRAGMA foreign_keys = ON;
         CREATE TABLE if not exists task_sequential_ids (
             sequential_id INTEGER PRIMARY KEY AUTOINCREMENT, task_id TEXT NOT NULL UNIQUE);
         CREATE TABLE if not exists task_events (
             aggregate_id TEXT NOT NULL, aggregate_version INTEGER NOT NULL,
             event TEXT NOT NULL, event_version INTEGER NOT NULL, occurred_on INTEGER NOT NULL,
             PRIMARY KEY(aggregate_id, aggregate_version),
             FOREIGN KEY (aggregate_id) REFERENCES task_sequential_ids(task_id));",
    ).map_err(store_error_of)
}

/// Append one event row.
///
/// Relies on rusqlite::Connection::execute running INSERT: on success the
/// row is stored under its primary key; a held key violates the primary-key
/// constraint and nothing changes. On failure the statement itself reverts,
/// but sqlite may roll the whole open transaction back with it, so the
/// tables end either unmoved or at the rollback target. The key and payload
/// must be valid UTF-8, so that the text conversion below is exact; a
/// rollback would still land where it would have before, and the other
/// table and its AUTOINCREMENT mark are untouched.
#[verifier::external_body]
fn db_insert_event(
    conn: &mut rusqlite::Connection,
    key: &Vec<u8>,
    version: i64,
    payload: &Vec<u8>,
    event_version: i64,
    occurred_on: i64,
) -> (r: Result<(), StoreError>)
    requires
        utf8_text(key@),
        utf8_text(payload@),
    ensures
        r matches Err(e) ==> e == StoreError::Storage || e == StoreError::IdentityConflict,
        txn_rows(*final(conn)) == txn_rows(*old(conn)),
        txn_issued(*final(conn)) == txn_issued(*old(conn)),
        seq_high_water(*final(conn)) == seq_high_water(*old(conn)),
        r is Ok ==> !event_rows(*old(conn)).dom().contains((key@, version as int))
            && event_rows(*final(conn)) == event_rows(*old(conn)).insert(
            (key@, version as int),
            payload@,
        ) && issued_ids(*final(conn)) == issued_ids(*old(conn)),
        event_rows(*old(conn)).dom().contains((key@, version as int)) ==> r is Err,
        r is Err ==> (event_rows(*final(conn)) == event_rows(*old(conn)) || event_rows(
            *final(conn),
        ) == txn_rows(*old(conn))) && (issued_ids(*final(conn)) == issued_ids(*old(conn))
            || issued_ids(*final(conn)) == txn_issued(*old(conn))),
{
    let res = conn.execute(
        "INSERT INTO task_events (
            aggregate_id, aggregate_version, event, event_version, occurred_on
         ) VALUES (?1, ?2, ?3, ?4, ?5)",
        (
            String::from_utf8_lossy(key).into_owned(),
            version,
            String::from_utf8_lossy(payload).into_owned(),
            event_version,
            occurred_on,
        ),
    );
    res.map(|_| ()).map_err(store_error_of)
}

/// Fetch the payloads stored for `key`, ascending by version.
///
/// Relies on rusqlite::Statement::query_map running SELECT ... ORDER BY:
/// it returns exactly the rows whose key column matches, in the asked
/// order. The key must be valid UTF-8, so that the text conversion below is
/// exact; a failure is sorted as Storage or IdentityConflict, nothing else.
#[verifier::external_body]
fn db_stream_payloads(conn: &rusqlite::Connection, key: &Vec<u8>) -> (r: Result<
    Vec<Vec<u8>>,
    StoreError,
>)
    requires
        utf8_text(key@),
    ensures
        r matches Ok(rows) ==> is_stream_listing(
            event_rows(*conn),
            key@,
            rows@.map_values(|p: Vec<u8>| p@),
        ),
        r matches Err(e) ==> e == StoreError::Storage || e == StoreError::IdentityConflict,
{
    let run = || -> rusqlite::Result<Vec<Vec<u8>>> {
        let mut stmt = conn.prepare(
            "SELECT event FROM task_events WHERE aggregate_id = ? ORDER BY aggregate_version ASC",
        )?;
        let rows = stmt.query_map([String::from_utf8_lossy(key).into_owned()], |row| {
            row.get::<_, String>(0).map(String::into_bytes)
        })?;
        rows.collect()
    };
    run().map_err(store_error_of)
}

/// Issue the next sequential id for `key`.
///
/// Relies on rusqlite::Connection::execute and last_insert_rowid: INSERT
/// into a table whose key column is UNIQUE fails on a held key and changes
/// nothing; AUTOINCREMENT hands out a rowid of at least 1, one above the
/// mark it keeps of every rowid the table has ever held, and a failed
/// INSERT moves neither table nor mark. The key must be valid UTF-8, so
/// that the text conversion below is exact.
#[verifier::external_body]
fn db_issue_sequential_id(conn: &mut rusqlite::Connection, key: &Vec<u8>) -> (r: Result<
    i64,
    StoreError,
>)
    requires
        utf8_text(key@),
    ensures
        r matches Err(e) ==> e == StoreError::Storage || e == StoreError::IdentityConflict,
        issued_ids(*old(conn)).dom().contains(key@) ==> r is Err,
        r matches Ok(id) ==> id as int == seq_high_water(*old(conn)) + 1 && seq_high_water(
            *final(conn),
        ) == id as int,
        r is Err ==> seq_high_water(*final(conn)) == seq_high_water(*old(conn)),
        r matches Ok(id) ==> !issued_ids(*old(conn)).dom().contains(key@) && issued_ids(*final(conn))
            == issued_ids(*old(conn)).insert(key@, id as int) && id >= 1 && (forall|k: Seq<u8>|
            issued_ids(*old(conn)).dom().contains(k) ==> issued_ids(*old(conn))[k] < id as int)
            && event_rows(*final(conn)) == event_rows(*old(conn)),
        r is Err ==> issued_ids(*final(conn)) == issued_ids(*old(conn)) && event_rows(*final(conn)) == event_rows(
            *old(conn),
        ),
{
    let res = conn.execute(
        "INSERT INTO task_sequential_ids (task_id) VALUES (?1)",
        [String::from_utf8_lossy(key).into_owned()],
    );
    match res {
        Ok(_) => Ok(conn.last_insert_rowid()),
        Err(e) => Err(store_error_of(e)),
    }
}

/// Look up the sequential id held by `key`, if any.
///
/// Relies on rusqlite::Connection::query_row running SELECT: it finds the
/// row whose unique key column matches, or no row at all. The key must be
/// valid UTF-8, so that the text conversion below is exact; a failure is
/// sorted as Storage or IdentityConflict, nothing else.
#[verifier::external_body]
fn db_seq_for_key(conn: &rusqlite::Connection, key: &Vec<u8>) -> (r: Result<
    Option<i64>,
    StoreError,
>)
    requires
        utf8_text(key@),
    ensures
        r matches Err(e) ==> e == StoreError::Storage || e == StoreError::IdentityConflict,
        r matches Ok(Some(id)) ==> issued_ids(*conn).dom().contains(key@) && issued_ids(*conn)[key@]
            == id as int,
        r matches Ok(None) ==> !issued_ids(*conn).dom().contains(key@),
{
    conn.query_row(
        "SELECT sequential_id FROM task_sequential_ids WHERE task_id = ?",
        [String::from_utf8_lossy(key).into_owned()],
        |row| row.get::<_, i64>(0),
    ).optional().map_err(store_error_of)
}

/// Look up the identity key holding a sequential id, if any.
///
/// Relies on rusqlite::Connection::query_row running SELECT: it finds the
/// row whose integer primary key matches, or no row at all; the key column
/// is text, so the bytes handed back are valid UTF-8. A failure is sorted
/// as Storage or IdentityConflict, nothing else.
#[verifier::external_body]
fn db_key_for_seq(conn: &rusqlite::Connection, sequential_id: i64) -> (r: Result<
    Option<Vec<u8>>,
    StoreError,
>)
    ensures
        r matches Ok(Some(k)) ==> issued_ids(*conn).dom().contains(k@) && issued_ids(*conn)[k@]
            == sequential_id as int && utf8_text(k@),
        r matches Err(e) ==> e == StoreError::Storage || e == StoreError::IdentityConflict,
        r matches Ok(None) ==> (forall|k: Seq<u8>|
            issued_ids(*conn).dom().contains(k) ==> issued_ids(*conn)[k] != sequential_id as int),
{
    conn.query_row(
        "SELECT task_id FROM task_sequential_ids WHERE sequential_id = ?",
        [sequential_id],
        |row| row.get::<_, String>(0).map(String::into_bytes),
    ).optional().map_err(store_error_of)
}

/// List every sequential id ever issued, ascending.
///
/// Relies on rusqlite::Statement::query_map running SELECT ... ORDER BY over
/// an integer primary key: each held id once, ascending.
#[verifier::external_body]
fn db_all_seq_ids(conn: &rusqlite::Connection) -> (r: Result<Vec<i64>, StoreError>)
    ensures
        r matches Ok(ids) ==> seq_lists_issued(
            ids@.map_values(|x: i64| x as int),
            issued_ids(*conn),
        ),
{
    let run = || -> rusqlite::Result<Vec<i64>> {
        let mut stmt = conn.prepare(
            "SELECT sequential_id FROM task_sequential_ids ORDER BY sequential_id ASC",
        )?;
        let rows = stmt.query_map([], |row| row.get::<_, i64>(0))?;
        rows.collect()
    };
    run().map_err(store_error_of)
}

/// Open a transaction; the connection's own view of the tables is unmoved.
/// Like every wrapper here, it expects the connection the repository was
/// built over to carry no transaction opened elsewhere.
///
/// Relies on rusqlite::Connection::execute_batch running BEGIN.
#[verifier::external_body]
fn db_begin(conn: &mut rusqlite::Connection) -> (r: Result<(), StoreError>)
    ensures
        r matches Err(e) ==> e == StoreError::Storage || e == StoreError::IdentityConflict,
        event_rows(*final(conn)) == event_rows(*old(conn)),
        issued_ids(*final(conn)) == issued_ids(*old(conn)),
        txn_rows(*final(conn)) == event_rows(*old(conn)),
        txn_issued(*final(conn)) == issued_ids(*old(conn)),
{
    conn.execute_batch("BEGIN").map_err(store_error_of)
}

/// Commit the open transaction: on success the connection's own view is
/// unmoved; on failure the transaction either stays open, view unmoved, or
/// sqlite has already rolled it back, view returned to where the
/// transaction found it. Either way the rollback target itself is unmoved.
///
/// Relies on rusqlite::Connection::execute_batch running COMMIT.
#[verifier::external_body]
fn db_commit(conn: &mut rusqlite::Connection) -> (r: Result<(), StoreError>)
    ensures
        r matches Err(e) ==> e == StoreError::Storage || e == StoreError::IdentityConflict,
        r is Ok ==> event_rows(*final(conn)) == event_rows(*old(conn)) && issued_ids(
            *final(conn),
        ) == issued_ids(*old(conn)),
        r is Err ==> (event_rows(*final(conn)) == event_rows(*old(conn)) || event_rows(
            *final(conn),
        ) == txn_rows(*old(conn))) && (issued_ids(*final(conn)) == issued_ids(*old(conn))
            || issued_ids(*final(conn)) == txn_issued(*old(conn))),
        txn_rows(*final(conn)) == txn_rows(*old(conn)),
        txn_issued(*final(conn)) == txn_issued(*old(conn)),
{
    conn.execute_batch("COMMIT").map_err(store_error_of)
}

/// Throw the open transaction away: the tables return to where the
/// transaction found them. This holds whatever ROLLBACK itself reports —
/// when sqlite has already rolled the transaction back after an error, or
/// none was open, the tables already stand at that point.
///
/// Relies on rusqlite::Connection::execute_batch running ROLLBACK.
#[verifier::external_body]
fn db_rollback(conn: &mut rusqlite::Connection) -> (r: Result<(), StoreError>)
    ensures
        r matches Err(e) ==> e == StoreError::Storage || e == StoreError::IdentityConflict,
        event_rows(*final(conn)) == txn_rows(*old(conn)),
        issued_ids(*final(conn)) == txn_issued(*old(conn)),
        txn_rows(*final(conn)) == txn_rows(*old(conn)),
        txn_issued(*final(conn)) == txn_issued(*old(conn)),
{
    conn.execute_batch("ROLLBACK").map_err(store_error_of)
}

/// The identity key an aggregate is stored under, as bytes: decimal
/// digits, hence valid UTF-8.
fn key_bytes(aggregate_id: &AggregateID) -> (r: Vec<u8>)
    ensures
        r@ == key_of(aggregate_id@),
        utf8_text(r@),
{
    let mut out: Vec<u8> = Vec::new();
    crate::codec::push_dec_u128(&mut out, aggregate_id.to_u128());
    proof {
        assert(out@ =~= key_of(aggregate_id@));
        crate::codec::lemma_dec_digits_are_digits(aggregate_id@ as nat);
        assert forall|i: int| 0 <= i < out@.len() implies #[trigger] out@[i] < 128 by {
            assert(crate::codec::is_digit(out@[i]));
        }
        lemma_ascii_valid_utf8(out@);
    }
    out
}

/// The sqlite-backed event store for tasks.
pub struct TaskRepository {
    conn: rusqlite::Connection,
}

impl TaskRepository {
    /// The sequential-id table this repository reaches.
    pub closed spec fn issued(self) -> Map<Seq<u8>, int> {
        issued_ids(self.conn)
    }

    /// The event table this repository reaches.
    pub closed spec fn rows(self) -> Map<(Seq<u8>, int), Seq<u8>> {
        event_rows(self.conn)
    }

    /// The AUTOINCREMENT mark of the sequential-id table this repository
    /// reaches.
    pub closed spec fn high_water(self) -> int {
        seq_high_water(self.conn)
    }

    /// Construct a TaskRepository over an open connection. The connection
    /// is the repository's alone from here on, and must not arrive with a
    /// transaction already open: the wrappers below read the tables'
    /// current state as the committed one.
    pub fn new(conn: rusqlite::Connection) -> (r: TaskRepository)
        ensures
            r.issued() == issued_ids(conn),
            r.rows() == event_rows(conn),
    {
        TaskRepository { conn }
    }

    /// Create the two tables; to be called once, before anything else.
    /// However often it runs, it never touches what the tables hold.
    pub fn create_table_if_not_exists(&mut self) -> (r: Result<(), StoreError>)
        ensures
            final(self).rows() == old(self).rows(),
            final(self).issued() == old(self).issued(),
            final(self).high_water() == old(self).high_water(),
    {
        db_setup(&mut self.conn)
    }

    /// Issue the sequential id for a freshly created aggregate. An identity
    /// that already holds one is refused; a fresh identity that succeeds is
    /// entered into the table with the id just above the AUTOINCREMENT
    /// mark — one more than the largest id the table has ever held — so
    /// successive issuances hand out consecutive, strictly increasing ids.
    pub fn issue_sequential_id(&mut self, aggregate_id: AggregateID) -> (r: Result<
        SequentialID,
        StoreError,
    >)
        ensures
            old(self).issued().dom().contains(key_of(aggregate_id@)) ==> r is Err,
            r matches Ok(sid) ==> {
                &&& !old(self).issued().dom().contains(key_of(aggregate_id@))
                &&& final(self).issued() == old(self).issued().insert(key_of(aggregate_id@), sid@)
                &&& sid@ >= 1
                &&& sid@ == old(self).high_water() + 1
                &&& final(self).high_water() == sid@
                &&& (forall|k: Seq<u8>|
                    old(self).issued().dom().contains(k) ==> old(self).issued()[k] < sid@)
                &&& final(self).rows() == old(self).rows()
            },
            r is Err ==> final(self).high_water() == old(self).high_water(),
            r is Err ==> final(self).issued() == old(self).issued() && final(self).rows() == old(
                self,
            ).rows(),
    {
        let key = key_bytes(&aggregate_id);
        match db_issue_sequential_id(&mut self.conn, &key) {
            Ok(id) => Ok(SequentialID::new(id)),
            Err(e) => Err(e),
        }
    }

    /// Load the task stored under an identity: fetch its stream, resolve its
    /// sequential id, decode and replay. An identity with no stream at all is
    /// `NotFound`; a stream whose identity lost its sequential id is a broken
    /// link; a row that will not decode is a corrupt event.
    pub fn load(&self, aggregate_id: AggregateID) -> (r: Result<Task, StoreError>)
        ensures
            r matches Ok(t) ==> t.wf() && t@.origin == aggregate_id@ && t@.pending == Seq::<
                EnvelopeView<EventView>,
            >::empty() && t@.elapsed_time == 0 && exists|ps: Seq<Seq<u8>>|
                #[trigger] loaded_from(
                    self.rows(),
                    self.issued(),
                    key_of(aggregate_id@),
                    t@.sequential_id,
                    t@,
                    ps,
                ),
            r matches Err(e) && e == StoreError::NotFound ==> forall|v: int|
                !self.rows().dom().contains((key_of(aggregate_id@), v)),
            r matches Err(e) && e == StoreError::BrokenLink ==> !self.issued().dom().contains(
                key_of(aggregate_id@),
            ) && (exists|v: int| #[trigger] self.rows().dom().contains((key_of(aggregate_id@), v))),
            r matches Err(e) && e == StoreError::InvalidEvent ==> exists|ps: Seq<Seq<u8>>|
                #[trigger] is_stream_listing(self.rows(), key_of(aggregate_id@), ps) && !(
                rows_decode(ps) && ps.len() <= i32::MAX),
    {
        let key = key_bytes(&aggregate_id);
        let rows = match db_stream_payloads(&self.conn, &key) {
            Ok(rs) => rs,
            Err(e) => { return Err(e) },
        };
        if rows.len() == 0 {
            proof {
                lemma_empty_listing(
                    self.rows(),
                    key@,
                    rows@.map_values(|p: Vec<u8>| p@),
                );
            }
            return Err(StoreError::NotFound);
        }
        let seq = match db_seq_for_key(&self.conn, &key) {
            Ok(Some(id)) => id,
            Ok(None) => {
                proof {
                    let ps = rows@.map_values(|p: Vec<u8>| p@);
                    let vs = choose|vs: Seq<int>|
                        {
                            &&& vs.len() == ps.len()
                            &&& (forall|i: int, j: int| 0 <= i < j < vs.len() ==> vs[i] < vs[j])
                            &&& (forall|i: int|
                                0 <= i < vs.len() ==> self.rows().dom().contains(
                                    (key@, #[trigger] vs[i]),
                                ) && ps[i] == self.rows().index((key@, vs[i])))
                            &&& (forall|v: int|
                                self.rows().dom().contains((key@, v)) ==> vs.contains(v))
                        };
                    assert(self.rows().dom().contains((key@, vs[0])));
                }
                return Err(StoreError::BrokenLink);
            },
            Err(e) => { return Err(e) },
        };
        match task_from_rows(aggregate_id, SequentialID::new(seq), &rows) {
            Ok(t) => {
                proof {
                    let ps = rows@.map_values(|p: Vec<u8>| p@);
                    crate::codec::lemma_dec_val_of_digits(aggregate_id@ as nat);
                    assert(loaded_from(
                        self.rows(),
                        self.issued(),
                        key_of(aggregate_id@),
                        t@.sequential_id,
                        t@,
                        ps,
                    ));
                }
                Ok(t)
            },
            Err(e) => Err(e),
        }
    }

    /// Persist the task's pending envelopes, all of them or none, then
    /// clear its buffer. Each envelope becomes one row keyed by (identity,
    /// version); a version already stored makes the whole save fail — the
    /// guard against two writers racing on one aggregate — and a failed
    /// save, rolled back, leaves both tables and the task exactly as they
    /// were.
    pub fn save(&mut self, task: &mut Task) -> (r: Result<(), StoreError>)
        requires
            old(task).wf(),
        ensures
            r is Ok ==> {
                &&& final(task)@ == (TaskView {
                    pending: Seq::<EnvelopeView<EventView>>::empty(),
                    ..old(task)@
                })
                &&& final(task).wf()
                &&& final(self).issued() == old(self).issued()
                &&& final(self).rows() == insert_batch(
                    old(self).rows(),
                    key_of(old(task)@.aggregate_id),
                    old(task)@.pending,
                    old(task)@.pending.len() as int,
                )
            },
            (exists|i: int|
                0 <= i < old(task)@.pending.len() && old(self).rows().dom().contains(
                    (
                        key_of(old(task)@.aggregate_id),
                        (#[trigger] old(task)@.pending[i]).aggregate_version,
                    ),
                )) ==> r is Err,
            r is Err ==> *final(task) == *old(task) && final(self).rows() == old(self).rows()
                && final(self).issued() == old(self).issued(),
    {
        let ghost pre_rows = self.rows();
        let ghost pre_issued = self.issued();
        let ghost pending = task@.pending;
        let key = key_bytes(&task.aggregate_id());
        match db_begin(&mut self.conn) {
            Ok(()) => {},
            Err(e) => { return Err(e) },
        }
        let mut i: usize = 0;
        let n = task.events().len();
        while i < n
            invariant
                i <= n,
                n == pending.len(),
                pending == task@.pending,
                pre_rows == old(self).rows(),
                pre_issued == old(self).issued(),
                key@ == key_of(task@.aggregate_id),
                utf8_text(key@),
                task.wf(),
                event_rows(self.conn) == insert_batch(pre_rows, key@, pending, i as int),
                issued_ids(self.conn) == pre_issued,
                txn_rows(self.conn) == pre_rows,
                txn_issued(self.conn) == pre_issued,
                forall|j: int|
                    0 <= j < i ==> !pre_rows.dom().contains(
                        (key@, (#[trigger] pending[j]).aggregate_version),
                    ),
                *task == *old(task),
            decreases n - i,
        {
            let envelope = &task.events()[i];
            let payload = encode_envelope(envelope);
            let version = envelope.aggregate_version() as i64;
            let event_version = envelope.event_version() as i64;
            let occurred_on = envelope.occurred_on();
            match db_insert_event(&mut self.conn, &key, version, &payload, event_version,
                occurred_on) {
                Ok(()) => {
                    proof {
                        lemma_insert_batch_keeps(pre_rows, key@, pending, i as int);
                    }
                },
                Err(e) => {
                    let _ = db_rollback(&mut self.conn);
                    return Err(e);
                },
            }
            i = i + 1;
        }
        match db_commit(&mut self.conn) {
            Ok(()) => {},
            Err(e) => {
                let _ = db_rollback(&mut self.conn);
                return Err(e);
            },
        }
        task.clear_events();
        Ok(())
    }

    /// Resolve a sequential id to its task: absent ids are a normal, empty
    /// answer; an id whose stream is gone is a broken link.
    #[verifier::spinoff_prover]
    pub fn load_by_sequential_id(&self, sequential_id: SequentialID) -> (r: Result<
        Option<Task>,
        StoreError,
    >)
        ensures
            r matches Ok(None::<Task>) ==> forall|k: Seq<u8>|
                self.issued().dom().contains(k) ==> self.issued()[k] != sequential_id@,
            r matches Ok(Some(t)) ==> resolved_task(
                self.rows(),
                self.issued(),
                sequential_id@,
                t,
            ),
            r matches Err(e) && e == StoreError::BrokenLink ==> exists|k: Seq<u8>|
                #[trigger] self.issued().dom().contains(k) && self.issued()[k] == sequential_id@
                    && (forall|v: int| !self.rows().dom().contains((k, v))),
            r matches Err(e) ==> e != StoreError::NotFound,
            r matches Err(e) && e == StoreError::InvalidEvent ==> exists|k: Seq<u8>|
                #[trigger] self.issued().dom().contains(k) && self.issued()[k] == sequential_id@
                    && (!decimal_key(k) || exists|ps: Seq<Seq<u8>>|
                    #[trigger] is_stream_listing(self.rows(), k, ps) && !(rows_decode(ps)
                        && ps.len() <= i32::MAX)),
    {
        let key = match db_key_for_seq(&self.conn, sequential_id.to_i64()) {
            Ok(Some(k)) => k,
            Ok(None) => { return Ok(None) },
            Err(e) => { return Err(e) },
        };
        let raw = match crate::codec::read_u128(&key, 0) {
            Some((v, p)) => {
                if p == key.len() {
                    v
                } else {
                    proof {
                        assert(self.issued().dom().contains(key@) && self.issued()[key@]
                            == sequential_id@ && !decimal_key(key@));
                    }
                    return Err(StoreError::InvalidEvent);
                }
            },
            None => {
                proof {
                    assert(key@.subrange(0, key@.len() as int) =~= key@);
                    assert(self.issued().dom().contains(key@) && self.issued()[key@]
                        == sequential_id@ && !decimal_key(key@));
                }
                return Err(StoreError::InvalidEvent);
            },
        };
        let rows = match db_stream_payloads(&self.conn, &key) {
            Ok(rs) => rs,
            Err(e) => { return Err(e) },
        };
        if rows.len() == 0 {
            proof {
                lemma_empty_listing(self.rows(), key@, rows@.map_values(|p: Vec<u8>| p@));
                assert(self.issued().dom().contains(key@));
            }
            return Err(StoreError::BrokenLink);
        }
        match task_from_rows(AggregateID::from_u128(raw), sequential_id, &rows) {
            Ok(t) => {
                proof {
                    let ps = rows@.map_values(|p: Vec<u8>| p@);
                    crate::codec::lemma_run_end_bounds(key@, 0);
                    crate::codec::lemma_dec_val_nonneg(
                        key@.subrange(0, crate::codec::run_end(key@, 0)),
                    );
                    assert(key@.subrange(0, key@.len() as int) =~= key@);
                    assert(loaded_from(
                        self.rows(),
                        self.issued(),
                        key@,
                        sequential_id@,
                        t@,
                        ps,
                    ));
                    assert(resolved_task(self.rows(), self.issued(), sequential_id@, t));
                }
                Ok(Some(t))
            },
            Err(e) => {
                proof {
                    let ps = rows@.map_values(|p: Vec<u8>| p@);
                    assert(is_stream_listing(self.rows(), key@, ps) && !(rows_decode(ps)
                        && ps.len() <= i32::MAX));
                    assert(self.issued().dom().contains(key@) && self.issued()[key@]
                        == sequential_id@);
                }
                Err(e)
            },
        }
    }

    /// Every sequential id ever issued, ascending.
    pub fn load_all_sequential_ids(&self) -> (r: Result<Vec<SequentialID>, StoreError>)
        ensures
            r matches Ok(ids) ==> seq_lists_issued(
                ids@.map_values(|s: SequentialID| s@),
                self.issued(),
            ),
    {
        let raw = match db_all_seq_ids(&self.conn) {
            Ok(ids) => ids,
            Err(e) => { return Err(e) },
        };
        let mut out: Vec<SequentialID> = Vec::new();
        let mut i: usize = 0;
        while i < raw.len()
            invariant
                i <= raw.len(),
                out@.len() == i,
                forall|j: int| 0 <= j < i ==> out@[j]@ == raw@[j] as int,
            decreases raw.len() - i,
        {
            out.push(SequentialID::new(raw[i]));
            i = i + 1;
        }
        proof {
            assert(out@.map_values(|s: SequentialID| s@) =~= raw@.map_values(|x: i64| x as int));
        }
        Ok(out)
    }
}

/// The store holds, for sequential id `sid`, the identity key `k` whose
/// stream is listed by `ps`: a nonempty stream, every row of which decodes.
pub open spec fn stream_of(
    rows_m: Map<(Seq<u8>, int), Seq<u8>>,
    issued_m: Map<Seq<u8>, int>,
    k: Seq<u8>,
    sid: int,
    ps: Seq<Seq<u8>>,
) -> bool {
    &&& is_stream_listing(rows_m, k, ps)
    &&& issued_m.dom().contains(k)
    &&& issued_m[k] == sid
    &&& ps.len() > 0
    &&& rows_decode(ps)
}

/// The task view `t` is what loading the stream `ps` yields.
pub open spec fn loaded_from(
    rows_m: Map<(Seq<u8>, int), Seq<u8>>,
    issued_m: Map<Seq<u8>, int>,
    k: Seq<u8>,
    sid: int,
    t: TaskView,
    ps: Seq<Seq<u8>>,
) -> bool {
    &&& stream_of(rows_m, issued_m, k, sid, ps)
    &&& t.history == decoded_events(ps)
    &&& t.version == ps.len()
    &&& t.origin as int == crate::codec::dec_val(k)
}

/// The task a sequential id resolves to: well formed, carrying that id,
/// nothing pending, loaded from some stream held under the id.
pub open spec fn resolved_task(
    rows_m: Map<(Seq<u8>, int), Seq<u8>>,
    issued_m: Map<Seq<u8>, int>,
    sid: int,
    t: Task,
) -> bool {
    &&& t.wf()
    &&& t@.sequential_id == sid
    &&& t@.pending == Seq::<EnvelopeView<EventView>>::empty()
    &&& t@.elapsed_time == 0
    &&& exists|k: Seq<u8>, ps: Seq<Seq<u8>>| #[trigger] loaded_from(rows_m, issued_m, k, sid, t@, ps)
}

/// The aggregate identity a stream stored under key `k` replays to: the
/// key's own value, unless a `Created` event in the stream renames it.
pub open spec fn stream_aggregate(k: Seq<u8>, ps: Seq<Seq<u8>>) -> u128 {
    crate::es_task::replay(
        crate::es_task::init_state(crate::codec::dec_val(k) as u128),
        decoded_events(ps),
    ).aggregate_id
}

/// The closed flag a decoded stream replays to. Only a `Created` event
/// touches the identity component, so the flag does not depend on the
/// identity the replay is seeded with; it is read off a zero seed.
pub open spec fn stream_closed(ps: Seq<Seq<u8>>) -> bool {
    crate::es_task::replay(crate::es_task::init_state(0), decoded_events(ps)).is_closed
}

/// Every payload in `rows` decodes.
pub open spec fn rows_decode(rows: Seq<Seq<u8>>) -> bool {
    forall|i: int| 0 <= i < rows.len() ==> spec_decode_envelope(#[trigger] rows[i]) is Some
}

/// The events carried by a sequence of decoded payloads.
pub open spec fn decoded_events(rows: Seq<Seq<u8>>) -> Seq<EventView> {
    rows.map_values(|p: Seq<u8>| spec_decode_envelope(p)->Some_0.event)
}

/// Decode a fetched stream and replay it: the verified heart of `load`.
/// Succeeds exactly when every row decodes and the stream is short enough
/// for its versions to count in the version's width; the result is then the
/// replay of the decoded events, with nothing pending.
pub fn task_from_rows(
    aggregate_id: AggregateID,
    sequential_id: SequentialID,
    rows: &Vec<Vec<u8>>,
) -> (r: Result<Task, StoreError>)
    ensures
        ({
            let ps = rows@.map_values(|p: Vec<u8>| p@);
            match r {
                Ok(t) => {
                    &&& rows_decode(ps)
                    &&& ps.len() <= i32::MAX
                    &&& t.wf()
                    &&& t@.origin == aggregate_id@
                    &&& t@.sequential_id == sequential_id@
                    &&& t@.elapsed_time == 0
                    &&& t@.pending == Seq::<EnvelopeView<EventView>>::empty()
                    &&& t@.history == decoded_events(ps)
                    &&& t@.version == ps.len()
                },
                Err(e) => {
                    &&& e == StoreError::InvalidEvent
                    &&& !(rows_decode(ps) && ps.len() <= i32::MAX)
                },
            }
        }),
{
    let ghost ps = rows@.map_values(|p: Vec<u8>| p@);
    if rows.len() > i32::MAX as usize {
        return Err(StoreError::InvalidEvent);
    }
    let mut envelopes: Vec<DomainEventEnvelope<TaskDomainEvent>> = Vec::new();
    let mut i: usize = 0;
    while i < rows.len()
        invariant
            i <= rows@.len() <= i32::MAX,
            ps == rows@.map_values(|p: Vec<u8>| p@),
            envelopes@.len() == i,
            forall|j: int| 0 <= j < i ==> spec_decode_envelope(ps[j]) == Some(
                #[trigger] envelopes@[j]@,
            ),
        decreases rows@.len() - i,
    {
        match decode_envelope(&rows[i]) {
            Some(envelope) => {
                envelopes.push(envelope);
            },
            None => {
                proof {
                    assert(spec_decode_envelope(ps[i as int]) is None);
                }
                return Err(StoreError::InvalidEvent);
            },
        }
        i = i + 1;
    }
    let t = Task::recreate(aggregate_id, sequential_id, envelopes);
    proof {
        assert forall|j: int| 0 <= j < ps.len() implies spec_decode_envelope(
            #[trigger] ps[j],
        ) is Some by {
            assert(spec_decode_envelope(ps[j]) == Some(envelopes@[j]@));
        }
        assert(t@.history =~= decoded_events(ps));
    }
    Ok(t)
}

/// `insert_batch` only adds rows: every key the table held, it still holds.
proof fn lemma_insert_batch_keeps(
    m: Map<(Seq<u8>, int), Seq<u8>>,
    key: Seq<u8>,
    pending: Seq<EnvelopeView<EventView>>,
    n: int,
)
    ensures
        forall|kk: (Seq<u8>, int)|
            m.dom().contains(kk) ==> #[trigger] insert_batch(m, key, pending, n).dom().contains(
                kk,
            ),
    decreases n,
{
    if n > 0 {
        lemma_insert_batch_keeps(m, key, pending, n - 1);
        assert forall|kk: (Seq<u8>, int)| m.dom().contains(kk) implies #[trigger] insert_batch(
            m,
            key,
            pending,
            n,
        ).dom().contains(kk) by {
            assert(insert_batch(m, key, pending, n - 1).dom().contains(kk));
        }
    }
}

/// What `insert_batch` holds under `key` when nothing was there before:
/// exactly the batch, each envelope's encoding at its own version.
proof fn lemma_insert_batch_fresh(
    pre: Map<(Seq<u8>, int), Seq<u8>>,
    key: Seq<u8>,
    penv: Seq<EnvelopeView<EventView>>,
    n: int,
)
    requires
        0 <= n <= penv.len(),
        forall|v: int| !pre.dom().contains((key, v)),
        forall|i: int| 0 <= i < penv.len() ==> (#[trigger] penv[i]).aggregate_version == i,
    ensures
        forall|j: int|
            0 <= j < n ==> #[trigger] insert_batch(pre, key, penv, n).dom().contains((key, j))
                && insert_batch(pre, key, penv, n).index((key, j)) == spec_encode_envelope(penv[j]),
        forall|v: int|
            #[trigger] insert_batch(pre, key, penv, n).dom().contains((key, v)) ==> 0 <= v < n,
    decreases n,
{
    if n > 0 {
        lemma_insert_batch_fresh(pre, key, penv, n - 1);
        let m1 = insert_batch(pre, key, penv, n - 1);
        let m = insert_batch(pre, key, penv, n);
        assert(m == m1.insert((key, n - 1), spec_encode_envelope(penv[n - 1])));
        assert forall|j: int| 0 <= j < n implies #[trigger] m.dom().contains((key, j))
            && m.index((key, j)) == spec_encode_envelope(penv[j]) by {
            if j < n - 1 {
                assert(m1.dom().contains((key, j)));
            }
        }
        assert forall|v: int| #[trigger] m.dom().contains((key, v)) implies 0 <= v < n by {
            if v != n - 1 {
                assert(m1.dom().contains((key, v)));
            }
        }
    }
}

/// A strictly ascending run of at least `i + 1` naturals reaches at least
/// `i` at position `i`.
proof fn lemma_sorted_lower(vs: Seq<int>, i: int)
    requires
        forall|a: int, b: int| 0 <= a < b < vs.len() ==> vs[a] < vs[b],
        forall|k: int| 0 <= k < vs.len() ==> #[trigger] vs[k] >= 0,
        0 <= i < vs.len(),
    ensures
        vs[i] >= i,
    decreases i,
{
    if i > 0 {
        lemma_sorted_lower(vs, i - 1);
    }
}

/// A strictly ascending run of values below its own length cannot exceed
/// `i` at position `i`.
proof fn lemma_sorted_upper(vs: Seq<int>, i: int)
    requires
        forall|a: int, b: int| 0 <= a < b < vs.len() ==> vs[a] < vs[b],
        forall|k: int| 0 <= k < vs.len() ==> #[trigger] vs[k] < vs.len(),
        0 <= i < vs.len(),
    ensures
        vs[i] <= i,
    decreases vs.len() - i,
{
    if i < vs.len() - 1 {
        lemma_sorted_upper(vs, i + 1);
    }
}

/// The one listing of a freshly written batch is the batch itself: if the
/// store held nothing under `key`, then after `insert_batch` the stream
/// listed for `key` is exactly the envelopes' encodings, in order.
proof fn lemma_fresh_batch_listing(
    pre: Map<(Seq<u8>, int), Seq<u8>>,
    key: Seq<u8>,
    penv: Seq<EnvelopeView<EventView>>,
    ps: Seq<Seq<u8>>,
)
    requires
        forall|v: int| !pre.dom().contains((key, v)),
        forall|i: int| 0 <= i < penv.len() ==> (#[trigger] penv[i]).aggregate_version == i,
        is_stream_listing(insert_batch(pre, key, penv, penv.len() as int), key, ps),
    ensures
        ps.len() == penv.len(),
        forall|i: int| 0 <= i < ps.len() ==> ps[i] == spec_encode_envelope(#[trigger] penv[i]),
{
    broadcast use vstd::set::group_set_axioms, vstd::seq_lib::group_seq_lib_default;

    let n = penv.len() as int;
    let m = insert_batch(pre, key, penv, n);
    lemma_insert_batch_fresh(pre, key, penv, n);
    let vs = choose|vs: Seq<int>|
        {
            &&& vs.len() == ps.len()
            &&& (forall|i: int, j: int| 0 <= i < j < vs.len() ==> vs[i] < vs[j])
            &&& (forall|i: int|
                0 <= i < vs.len() ==> m.dom().contains((key, #[trigger] vs[i]))
                    && ps[i] == m.index((key, vs[i])))
            &&& (forall|v: int| m.dom().contains((key, v)) ==> vs.contains(v))
        };
    assert forall|k: int| 0 <= k < vs.len() implies 0 <= #[trigger] vs[k] < n by {
        assert(m.dom().contains((key, vs[k])));
    }
    assert(vs.no_duplicates());
    vs.unique_seq_to_set();
    assert(vs.to_set().subset_of(vstd::set_lib::set_int_range(0, n))) by {
        assert forall|v: int| vs.to_set().contains(v) implies vstd::set_lib::set_int_range(
            0,
            n,
        ).contains(v) by {
            let k = choose|k: int| 0 <= k < vs.len() && vs[k] == v;
        }
    }
    assert(vstd::set_lib::set_int_range(0, n).subset_of(vs.to_set())) by {
        assert forall|v: int| vstd::set_lib::set_int_range(0, n).contains(v) implies vs.to_set()
            .contains(v) by {
            assert(penv[v].aggregate_version == v);
            assert(m.dom().contains((key, v)));
            assert(vs.contains(v));
        }
    }
    vstd::set_lib::lemma_int_range(0, n);
    vstd::set_lib::lemma_len_subset(vs.to_set(), vstd::set_lib::set_int_range(0, n));
    vstd::set_lib::lemma_len_subset(vstd::set_lib::set_int_range(0, n), vs.to_set());
    assert(vs.len() == n);
    assert forall|i: int| 0 <= i < ps.len() implies ps[i] == spec_encode_envelope(
        #[trigger] penv[i],
    ) by {
        lemma_sorted_lower(vs, i);
        lemma_sorted_upper(vs, i);
        assert(vs[i] == i);
        assert(ps[i] == m.index((key, i)));
    }
}

/// Round-trip: write a freshly created task's whole pending batch into a
/// store holding nothing under its key, and whatever listing the store then
/// hands back for that key decodes to the very events recorded, replaying
/// to the task's own observable state at the task's own version. With
/// `save`'s and `load`'s contracts, this is why a save of a fresh aggregate
/// followed by a load hands back the same task.
pub proof fn lemma_save_then_load_round_trip(
    pre: Map<(Seq<u8>, int), Seq<u8>>,
    t: Task,
    ps: Seq<Seq<u8>>,
)
    requires
        t.wf(),
        crate::es_task::pending_covers_from(t@.pending, t@.history, 0),
        forall|v: int| !pre.dom().contains((key_of(t@.aggregate_id), v)),
        is_stream_listing(
            insert_batch(pre, key_of(t@.aggregate_id), t@.pending, t@.pending.len() as int),
            key_of(t@.aggregate_id),
            ps,
        ),
    ensures
        ps.len() == t@.version,
        rows_decode(ps),
        decoded_events(ps) == t@.history,
        crate::es_task::replay(crate::es_task::init_state(t@.aggregate_id), decoded_events(ps))
            == crate::es_task::state_of(t@),
{
    assert forall|i: int|
        0 <= i < t@.pending.len() implies crate::event_codec::envelope_encodable(
        #[trigger] t@.pending[i],
    ) by {
        assert(t@.pending[i].aggregate_version == i);
    }
    lemma_fresh_batch_listing(pre, key_of(t@.aggregate_id), t@.pending, ps);
    assert forall|i: int| 0 <= i < ps.len() implies spec_decode_envelope(#[trigger] ps[i])
        == Some(t@.pending[i]) by {
        crate::event_codec::lemma_envelope_round_trip(t@.pending[i]);
    }
    assert(decoded_events(ps) =~= t@.history);
    crate::es_task::lemma_round_trip(t);
}

/// No two identities hold one sequential id.
pub open spec fn issued_injective(m: Map<Seq<u8>, int>) -> bool {
    forall|k1: Seq<u8>, k2: Seq<u8>|
        #![trigger m.dom().contains(k1), m.dom().contains(k2)]
        m.dom().contains(k1) && m.dom().contains(k2) && m[k1] == m[k2] ==> k1 == k2
}

/// Issuance keeps the issued table injective: the id a successful issuance
/// enters sits strictly above every id the table holds, so it collides with
/// none, and every other operation's contract leaves the table untouched.
/// A real table is injective to begin with — sequential_id is its integer
/// primary key — so clients composing operations can carry injectivity
/// through, and a sequential id resolves to at most one identity's stream.
pub proof fn lemma_issue_preserves_injectivity(pre: Map<Seq<u8>, int>, k: Seq<u8>, id: int)
    requires
        issued_injective(pre),
        !pre.dom().contains(k),
        forall|k2: Seq<u8>| pre.dom().contains(k2) ==> pre[k2] < id,
    ensures
        issued_injective(pre.insert(k, id)),
{
    let post = pre.insert(k, id);
    assert forall|k1: Seq<u8>, k2: Seq<u8>|
        post.dom().contains(k1) && post.dom().contains(k2) && post[k1]
            == post[k2] implies k1 == k2 by {
        if k1 != k && k2 != k {
            assert(pre.dom().contains(k1) && pre.dom().contains(k2));
        }
    }
}

/// Sequential id uniqueness: a successful issuance enters its identity into
/// the issued table; `issue_sequential_id`'s contract then admits only an
/// error for that identity, so a second issuance for it fails; and any
/// issuance that does succeed afterwards is for a different identity and
/// yields a strictly larger id.
pub proof fn lemma_sequential_ids_unique_and_increasing(
    pre: Map<Seq<u8>, int>,
    k1: Seq<u8>,
    id1: int,
    k2: Seq<u8>,
    id2: int,
)
    requires
        !pre.dom().contains(k1),
        !pre.insert(k1, id1).dom().contains(k2),
        forall|k: Seq<u8>|
            pre.insert(k1, id1).dom().contains(k) ==> pre.insert(k1, id1)[k] < id2,
    ensures
        pre.insert(k1, id1).dom().contains(k1),
        k2 != k1,
        id2 > id1,
{
    assert(pre.insert(k1, id1)[k1] == id1);
}

} // verus!
