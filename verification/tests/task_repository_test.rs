use taskmr::task::{Cost, Priority, Task, ID};
use taskmr::task_repository::TaskRepository;

#[test]
fn task_repository_test_not_panic_create_table_twice() {
    let mut task_repository =
        TaskRepository::new(rusqlite::Connection::open_in_memory().unwrap());
    task_repository.create_table_if_not_exists().unwrap();
    task_repository.create_table_if_not_exists().unwrap();
}

#[test]
fn test_add() {
    #[derive(Debug)]
    struct Args {
        task: Task,
    }

    #[derive(Debug)]
    struct TestCase {
        args: Args,
        want: Option<Task>,
        name: String,
    }

    let table = [TestCase {
        name: String::from("nominal"),
        args: Args {
            task: Task::new(String::from("hoge"), Some(Priority::new(2)), Some(Cost::new(3))),
        },
        want: Some(Task::from_repository(
            ID::new(1),
            String::from("hoge"),
            false,
            Priority::new(2),
            Cost::new(3),
            0,
        )),
    }];

    let mut task_repository =
        TaskRepository::new(rusqlite::Connection::open_in_memory().unwrap());
    task_repository.create_table_if_not_exists().unwrap();

    for test_case in table {
        let id = task_repository.add(test_case.args.task).unwrap();
        assert_eq!(
            task_repository.find_by_id(id).unwrap(),
            test_case.want,
            "Failed in the \"{}\".",
            test_case.name,
        );
    }
}

#[test]
fn test_update() {
    #[derive(Debug)]
    struct Args {
        task: Task,
    }

    #[derive(Debug)]
    struct TestCase {
        given: Task,
        args: Args,
        want: Option<Task>,
        name: String,
    }

    let table = [TestCase {
        name: String::from("nominal: close"),
        given: Task::new("hoge".to_owned(), Some(Priority::new(2)), Some(Cost::new(3))),
        args: Args {
            task: Task::from_repository(
                ID::new(1),
                String::from("fuga"),
                true,
                Priority::new(3),
                Cost::new(4),
                1,
            ),
        },
        want: Some(Task::from_repository(
            ID::new(1),
            String::from("fuga"),
            true,
            Priority::new(3),
            Cost::new(4),
            1,
        )),
    }];

    let mut task_repository =
        TaskRepository::new(rusqlite::Connection::open_in_memory().unwrap());
    task_repository.create_table_if_not_exists().unwrap();

    for test_case in table {
        let id = task_repository.add(test_case.given).unwrap();
        task_repository.update(test_case.args.task).unwrap();
        assert_eq!(
            task_repository.find_by_id(id).unwrap(),
            test_case.want,
            "Failed in the \"{}\".",
            test_case.name,
        );
    }
}

#[test]
fn test_find_by_id() {
    #[derive(Debug)]
    struct Args {
        make_id: fn(id: ID) -> ID,
    }

    #[derive(Debug)]
    struct TestCase {
        args: Args,
        make_want: fn(id: ID) -> Option<Task>,
        name: String,
    }

    let table = [
        TestCase {
            name: String::from("nominal"),
            args: Args { make_id: |id| id },
            make_want: |id| {
                Some(Task::from_repository(
                    id,
                    String::from("fuga"),
                    false,
                    Priority::new(10),
                    Cost::new(10),
                    0,
                ))
            },
        },
        TestCase {
            name: String::from("anominal: not found task"),
            args: Args { make_id: |id| ID::new(id.get() + 100) },
            make_want: |_| None,
        },
    ];

    let mut task_repository =
        TaskRepository::new(rusqlite::Connection::open_in_memory().unwrap());
    task_repository.create_table_if_not_exists().unwrap();
    let inserted_id = task_repository.add(Task::new(String::from("fuga"), None, None)).unwrap();

    for test_case in table {
        assert_eq!(
            task_repository.find_by_id((test_case.args.make_id)(inserted_id)).unwrap(),
            (test_case.make_want)(inserted_id),
            "Failed in the \"{}\".",
            test_case.name,
        );
    }
}

fn make_task(seed: u64, is_closed: bool) -> Task {
    Task::from_repository(
        ID::new(seed as i64),
        seed.to_string(),
        is_closed,
        Priority::new(seed as i32),
        Cost::new(seed as i32),
        seed,
    )
}

#[test]
fn test_find_opening() {
    #[derive(Debug)]
    struct TestCase {
        given: Vec<Task>,
        want: Vec<Task>,
        name: String,
    }

    let table = [
        TestCase {
            name: String::from("nominal"),
            given: vec![
                make_task(1, false),
                make_task(2, false),
                make_task(3, true),
                make_task(4, false),
            ],
            want: vec![make_task(1, false), make_task(2, false), make_task(4, false)],
        },
        TestCase {
            name: String::from("nominal: empty table"),
            given: Vec::new(),
            want: Vec::new(),
        },
        TestCase {
            name: String::from("nominal: all closed"),
            given: vec![
                make_task(1, true),
                make_task(2, true),
                make_task(3, true),
                make_task(4, true),
            ],
            want: Vec::new(),
        },
    ];

    for test_case in table {
        let mut task_repository =
            TaskRepository::new(rusqlite::Connection::open_in_memory().unwrap());
        task_repository.create_table_if_not_exists().unwrap();

        for gt in test_case.given {
            task_repository.add(gt).unwrap();
        }

        assert_eq!(
            task_repository.find_opening().unwrap(),
            test_case.want,
            "Failed in the \"{}\".",
            test_case.name,
        );
    }
}

#[test]
fn test_fetch_all() {
    #[derive(Debug)]
    struct TestCase {
        given: Vec<Task>,
        want: Vec<Task>,
        name: String,
    }

    let table = [
        TestCase {
            name: String::from("nominal"),
            given: vec![
                make_task(1, false),
                make_task(2, false),
                make_task(3, true),
                make_task(4, false),
            ],
            want: vec![
                make_task(1, false),
                make_task(2, false),
                make_task(3, true),
                make_task(4, false),
            ],
        },
        TestCase {
            name: String::from("nominal: empty table"),
            given: Vec::new(),
            want: Vec::new(),
        },
    ];

    for test_case in table {
        let mut task_repository =
            TaskRepository::new(rusqlite::Connection::open_in_memory().unwrap());
        task_repository.create_table_if_not_exists().unwrap();

        for gt in test_case.given {
            task_repository.add(gt).unwrap();
        }

        assert_eq!(
            task_repository.fetch_all().unwrap(),
            test_case.want,
            "Failed in the \"{}\".",
            test_case.name,
        );
    }
}
