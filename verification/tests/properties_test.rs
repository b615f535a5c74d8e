use taskmr::component::{AggregateID, DomainEventEnvelope};
use taskmr::error::StoreError;
use taskmr::es_add_task_usecase::{AddTaskUseCase, AddTaskUseCaseInput};
use taskmr::es_task::{Cost, Priority, SequentialID, Task, TaskCommand, TaskDomainEvent, TaskSource};
use taskmr::es_task_repository::TaskRepository;
use taskmr::event_codec::{decode_envelope, encode_envelope};

fn fresh_repository() -> TaskRepository {
    let mut repository = TaskRepository::new(rusqlite::Connection::open_in_memory().unwrap());
    repository.create_table_if_not_exists().unwrap();
    repository
}

/// Round-trip: any sequence of commands on a fresh aggregate, saved and
/// loaded back, yields identical observable state and version.
#[test]
fn round_trip_save_then_load() {
    let mut repository = fresh_repository();
    let aggregate_id = AggregateID::new();
    let sequential_id = repository.issue_sequential_id(aggregate_id).unwrap();

    let mut task = Task::create(TaskSource {
        aggregate_id,
        sequential_id,
        title: "first title".to_owned(),
        priority: Some(Priority::new(7)),
        cost: None,
    });
    task.execute(TaskCommand::EditTitle { title: "second title".to_owned() }).unwrap();
    task.execute(TaskCommand::RescoreCost { cost: Cost::new(42) }).unwrap();
    task.execute(TaskCommand::Close).unwrap();

    repository.save(&mut task).unwrap();
    let loaded = repository.load(aggregate_id).unwrap();

    assert_eq!(loaded.aggregate_id(), task.aggregate_id());
    assert_eq!(loaded.sequential_id(), task.sequential_id());
    assert_eq!(loaded.title(), "second title");
    assert_eq!(loaded.priority(), Priority::new(7));
    assert_eq!(loaded.cost(), Cost::new(42));
    assert!(loaded.is_closed());
    assert_eq!(loaded.version(), task.version());
    assert_eq!(loaded.version(), 6);
}

/// Replay determinism: loading the same stream twice yields the same state.
#[test]
fn replay_same_stream_twice() {
    let mut repository = fresh_repository();
    let aggregate_id = AggregateID::new();
    let sequential_id = repository.issue_sequential_id(aggregate_id).unwrap();
    let mut task = Task::create(TaskSource {
        aggregate_id,
        sequential_id,
        title: "stable".to_owned(),
        priority: None,
        cost: Some(Cost::new(3)),
    });
    repository.save(&mut task).unwrap();

    let first = repository.load(aggregate_id).unwrap();
    let second = repository.load(aggregate_id).unwrap();
    assert_eq!(first.title(), second.title());
    assert_eq!(first.priority(), second.priority());
    assert_eq!(first.cost(), second.cost());
    assert_eq!(first.is_closed(), second.is_closed());
    assert_eq!(first.version(), second.version());
}

/// Version monotonicity: the version counts recorded events across saves.
#[test]
fn version_counts_events_across_saves() {
    let mut repository = fresh_repository();
    let aggregate_id = AggregateID::new();
    let sequential_id = repository.issue_sequential_id(aggregate_id).unwrap();
    let mut task = Task::create(TaskSource {
        aggregate_id,
        sequential_id,
        title: "counted".to_owned(),
        priority: None,
        cost: None,
    });
    assert_eq!(task.version(), 2);
    repository.save(&mut task).unwrap();
    assert_eq!(task.version(), 2);

    task.execute(TaskCommand::RescorePriority { priority: Priority::new(1) }).unwrap();
    task.execute(TaskCommand::RescoreCost { cost: Cost::new(2) }).unwrap();
    task.execute(TaskCommand::Close).unwrap();
    assert_eq!(task.version(), 5);
    repository.save(&mut task).unwrap();

    let loaded = repository.load(aggregate_id).unwrap();
    assert_eq!(loaded.version(), 5);
}

/// Sequential id uniqueness: the first issuance yields 1, the next identity
/// gets 2, and a second issuance for the same identity is a conflict.
#[test]
fn sequential_ids_unique_and_increasing() {
    let mut repository = fresh_repository();
    let first = AggregateID::new();
    let second = AggregateID::new();

    assert_eq!(repository.issue_sequential_id(first).unwrap(), SequentialID::new(1));
    assert_eq!(repository.issue_sequential_id(second).unwrap(), SequentialID::new(2));
    assert_eq!(
        repository.issue_sequential_id(first).unwrap_err(),
        StoreError::IdentityConflict
    );
}

/// Default scoring: no overrides yield priority 10 and cost 10; overrides
/// are captured as their own events after `Created` and `TitleEdited`, the
/// envelope versions counting up from 0.
#[test]
fn default_scoring_and_creation_event_order() {
    let plain = Task::create(TaskSource {
        aggregate_id: AggregateID::new(),
        sequential_id: SequentialID::new(1),
        title: "plain".to_owned(),
        priority: None,
        cost: None,
    });
    assert_eq!(plain.priority(), Priority::new(10));
    assert_eq!(plain.cost(), Cost::new(10));
    assert_eq!(plain.events().len(), 2);

    let aggregate_id = AggregateID::new();
    let scored = Task::create(TaskSource {
        aggregate_id,
        sequential_id: SequentialID::new(2),
        title: "scored".to_owned(),
        priority: Some(Priority::new(100)),
        cost: Some(Cost::new(200)),
    });
    assert_eq!(scored.priority(), Priority::new(100));
    assert_eq!(scored.cost(), Cost::new(200));

    let events = scored.events();
    assert_eq!(events.len(), 4);
    let expected = vec![
        TaskDomainEvent::Created { aggregate_id, sequential_id: SequentialID::new(2) },
        TaskDomainEvent::TitleEdited { title: "scored".to_owned() },
        TaskDomainEvent::PriorityRescored { priority: Priority::new(100) },
        TaskDomainEvent::CostRescored { cost: Cost::new(200) },
    ];
    for (i, envelope) in events.iter().enumerate() {
        assert_eq!(envelope.aggregate_version(), i as i32);
        assert_eq!(envelope.event_version(), 1);
        assert_eq!(envelope.event(), &expected[i]);
    }
}

/// The persisted form of an envelope is the documented ASCII line, and
/// decoding is its exact inverse.
#[test]
fn envelope_encoding_is_exact() {
    let envelope = DomainEventEnvelope::from_parts(
        TaskDomainEvent::PriorityRescored { priority: Priority::new(100) },
        2,
        1,
        1700000000,
    );
    let bytes = encode_envelope(&envelope);
    assert_eq!(bytes, b"2 1 1700000000 P 100".to_vec());

    let decoded = decode_envelope(&bytes).unwrap();
    assert_eq!(decoded.aggregate_version(), 2);
    assert_eq!(decoded.event_version(), 1);
    assert_eq!(decoded.occurred_on(), 1700000000);
    assert_eq!(
        decoded.event(),
        &TaskDomainEvent::PriorityRescored { priority: Priority::new(100) }
    );
}

/// Titles survive the codec byte for byte, spaces and all; corrupt payloads
/// are refused.
#[test]
fn envelope_codec_round_trip_and_rejection() {
    let aggregate_id = AggregateID::new();
    let cases = vec![
        TaskDomainEvent::Created { aggregate_id, sequential_id: SequentialID::new(-3) },
        TaskDomainEvent::Closed,
        TaskDomainEvent::TitleEdited { title: "".to_owned() },
        TaskDomainEvent::TitleEdited { title: "a title with spaces, \"quotes\" and 7s".to_owned() },
        TaskDomainEvent::CostRescored { cost: Cost::new(-2147483648) },
        TaskDomainEvent::PriorityRescored { priority: Priority::new(2147483647) },
    ];
    for (i, event) in cases.into_iter().enumerate() {
        let envelope = DomainEventEnvelope::from_parts(event.clone(), i as i32, 1, -62135596800);
        let bytes = encode_envelope(&envelope);
        let decoded = decode_envelope(&bytes).unwrap();
        assert_eq!(decoded.event(), &event);
        assert_eq!(decoded.aggregate_version(), i as i32);
        assert_eq!(decoded.occurred_on(), -62135596800);
    }

    assert!(decode_envelope(&b"".to_vec()).is_none());
    assert!(decode_envelope(&b"0 1 0 Z".to_vec()).is_none());
    assert!(decode_envelope(&b"0 1 0 P ten".to_vec()).is_none());
    assert!(decode_envelope(&b"0 1 0 X trailing".to_vec()).is_none());
}

/// An identity with no stream at all is `NotFound`; a corrupt stored row is
/// `InvalidEvent`; a sequential id whose stream is gone is a broken link.
#[test]
fn load_failure_taxonomy() {
    let conn = rusqlite::Connection::open_in_memory().unwrap();
    let mut repository = TaskRepository::new(conn);
    repository.create_table_if_not_exists().unwrap();
    assert_eq!(
        repository.load(AggregateID::from_u128(7)).err().unwrap(),
        StoreError::NotFound
    );

    let seeding = rusqlite::Connection::open_in_memory().unwrap();
    seeding
        .execute_batch(
            "CREATE TABLE task_sequential_ids (
                 sequential_id INTEGER PRIMARY KEY AUTOINCREMENT,
                 task_id TEXT NOT NULL UNIQUE
             );
             CREATE TABLE task_events (
                 aggregate_id TEXT NOT NULL,
                 aggregate_version INTEGER NOT NULL,
                 event TEXT NOT NULL,
                 event_version INTEGER NOT NULL,
                 occurred_on INTEGER NOT NULL,
                 PRIMARY KEY(aggregate_id, aggregate_version)
             );
             INSERT INTO task_sequential_ids (task_id) VALUES ('42');
             INSERT INTO task_sequential_ids (task_id) VALUES ('43');
             INSERT INTO task_events VALUES ('42', 0, 'not an event', 1, 0);",
        )
        .unwrap();
    let corrupted = TaskRepository::new(seeding);
    assert_eq!(
        corrupted.load(AggregateID::from_u128(42)).err().unwrap(),
        StoreError::InvalidEvent
    );
    assert_eq!(
        corrupted.load_by_sequential_id(SequentialID::new(2)).err().unwrap(),
        StoreError::BrokenLink
    );
    assert!(corrupted.load_by_sequential_id(SequentialID::new(9)).unwrap().is_none());
}

/// A use case over a database without the schema reports a storage error.
#[test]
fn missing_schema_is_a_storage_error() {
    let repository = TaskRepository::new(rusqlite::Connection::open_in_memory().unwrap());
    let mut add_task_usecase = AddTaskUseCase::new(repository);
    let err = add_task_usecase
        .execute(AddTaskUseCaseInput { title: "no schema".to_owned(), priority: None, cost: None })
        .unwrap_err();
    assert!(matches!(err, taskmr::error::UseCaseError::Store(StoreError::Storage)));
}

/// A version collision on save — two writers racing on one aggregate — is
/// refused as a conflict, and the loser's failed save leaves the stored
/// stream and its own buffer untouched.
#[test]
fn save_version_collision_is_refused_and_atomic() {
    let mut repository = fresh_repository();
    let aggregate_id = AggregateID::new();
    let sequential_id = repository.issue_sequential_id(aggregate_id).unwrap();

    let mut first_writer = Task::create(TaskSource {
        aggregate_id,
        sequential_id,
        title: "winner".to_owned(),
        priority: None,
        cost: None,
    });
    repository.save(&mut first_writer).unwrap();

    let mut second_writer = Task::create(TaskSource {
        aggregate_id,
        sequential_id,
        title: "loser".to_owned(),
        priority: Some(Priority::new(99)),
        cost: None,
    });
    let err = repository.save(&mut second_writer).err().unwrap();
    assert_eq!(err, StoreError::IdentityConflict);
    assert_eq!(second_writer.events().len(), 3);

    let stored = repository.load(aggregate_id).unwrap();
    assert_eq!(stored.title(), "winner");
    assert_eq!(stored.priority(), Priority::new(10));
    assert_eq!(stored.version(), 2);
}
