use taskmr::component::AggregateID;
use taskmr::es_task::{Cost, Priority, SequentialID, Task, TaskCommand, TaskSource};
use taskmr::es_task_repository::TaskRepository;

fn assert_same_state(a: &Task, b: &Task, name: &str) {
    assert_eq!(a.aggregate_id(), b.aggregate_id(), "Failed in the \"{}\".", name);
    assert_eq!(a.sequential_id(), b.sequential_id(), "Failed in the \"{}\".", name);
    assert_eq!(a.title(), b.title(), "Failed in the \"{}\".", name);
    assert_eq!(a.is_closed(), b.is_closed(), "Failed in the \"{}\".", name);
    assert_eq!(a.priority(), b.priority(), "Failed in the \"{}\".", name);
    assert_eq!(a.cost(), b.cost(), "Failed in the \"{}\".", name);
    assert_eq!(a.elapsed_time(), b.elapsed_time(), "Failed in the \"{}\".", name);
    assert_eq!(a.version(), b.version(), "Failed in the \"{}\".", name);
}

#[test]
fn es_task_repository_test_not_panic_create_table_twice() {
    let mut task_repository =
        TaskRepository::new(rusqlite::Connection::open_in_memory().unwrap());
    task_repository.create_table_if_not_exists().unwrap();
    task_repository.create_table_if_not_exists().unwrap();
}

#[test]
fn test_save_and_load() {
    let mut task_repository =
        TaskRepository::new(rusqlite::Connection::open_in_memory().unwrap());
    task_repository.create_table_if_not_exists().unwrap();

    let aggregate_id = AggregateID::new();
    let sequential_id = task_repository.issue_sequential_id(aggregate_id).unwrap();
    assert_eq!(sequential_id, SequentialID::new(1));

    let mut task = Task::create(TaskSource {
        aggregate_id,
        sequential_id,
        title: "test a task".into(),
        priority: Some(Priority::new(11)),
        cost: Some(Cost::new(12)),
    });

    task.execute(TaskCommand::EditTitle { title: "it is awesome task".into() }).unwrap();

    task_repository.save(&mut task).unwrap();

    let loaded_task = task_repository.load(task.aggregate_id()).unwrap();
    assert_same_state(&task, &loaded_task, "test_save_and_load");
    assert_eq!(task.events().len(), 0, "Failed in the \"{}\".", "test_save_and_load");
    assert_eq!(loaded_task.events().len(), 0, "Failed in the \"{}\".", "test_save_and_load");

    task_repository.save(&mut task).unwrap();

    let loaded_task = task_repository.load(task.aggregate_id()).unwrap();
    assert_same_state(&task, &loaded_task, "test_save_and_load");
}

#[test]
fn test_fail_issue_sequential_id_twice() {
    let mut task_repository =
        TaskRepository::new(rusqlite::Connection::open_in_memory().unwrap());
    task_repository.create_table_if_not_exists().unwrap();

    let aggregate_id = AggregateID::new();

    let seq_id = task_repository.issue_sequential_id(aggregate_id).unwrap();
    assert_eq!(seq_id, SequentialID::new(1));

    task_repository.issue_sequential_id(aggregate_id).unwrap_err();
}

#[test]
fn test_succeed_issue_sequential_id() {
    let mut task_repository =
        TaskRepository::new(rusqlite::Connection::open_in_memory().unwrap());
    task_repository.create_table_if_not_exists().unwrap();

    let aggregate_id = AggregateID::new();
    let sequential_id = task_repository.issue_sequential_id(aggregate_id).unwrap();
    assert_eq!(sequential_id, SequentialID::new(1));

    let mut task1 = Task::create(TaskSource {
        aggregate_id,
        sequential_id,
        title: "test a task".into(),
        priority: Some(Priority::new(11)),
        cost: Some(Cost::new(12)),
    });

    task_repository.save(&mut task1).unwrap();

    let aggregate_id = AggregateID::new();
    let sequential_id = task_repository.issue_sequential_id(aggregate_id).unwrap();
    assert_eq!(sequential_id, SequentialID::new(2));

    let mut task2 = Task::create(TaskSource {
        aggregate_id,
        sequential_id,
        title: "test a task".into(),
        priority: Some(Priority::new(21)),
        cost: Some(Cost::new(22)),
    });

    task_repository.save(&mut task2).unwrap();
}
