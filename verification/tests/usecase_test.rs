use taskmr::add_task_usecase::{AddTaskUseCase, AddTaskUseCaseInput};
use taskmr::close_task_usecase::{CloseTaskUseCase, CloseTaskUseCaseInput};
use taskmr::edit_task_usecase::{EditTaskUseCase, EditTaskUseCaseInput};
use taskmr::error::UseCaseError;
use taskmr::list_task_usecase::{ListTaskUseCase, ListTaskUseCaseInput, TaskDTO};
use taskmr::task::{Cost, Priority, Task, ID};
use taskmr::task_repository::TaskRepository;

#[test]
fn add_task_usecase_test_execute() {
    #[derive(Debug)]
    struct Args {
        input: AddTaskUseCaseInput,
    }

    #[derive(Debug)]
    struct TestCase {
        args: Args,
        want: Task,
        name: String,
    }

    let table = [
        TestCase {
            name: String::from("nominal: with priority and cost"),
            args: Args {
                input: AddTaskUseCaseInput {
                    title: String::from("title1"),
                    priority: Some(100),
                    cost: Some(200),
                },
            },
            want: Task::new("title1".to_owned(), Some(Priority::new(100)), Some(Cost::new(200))),
        },
        TestCase {
            name: String::from("nominal: without priority and cost"),
            args: Args {
                input: AddTaskUseCaseInput {
                    title: String::from("title2"),
                    priority: None,
                    cost: None,
                },
            },
            want: Task::new("title2".to_owned(), Some(Priority::new(10)), Some(Cost::new(10))),
        },
    ];

    let mut task_repository =
        TaskRepository::new(rusqlite::Connection::open_in_memory().unwrap());
    task_repository.create_table_if_not_exists().unwrap();
    let mut add_task_usecase = AddTaskUseCase::new(task_repository);

    for test_case in table {
        let id = add_task_usecase.execute(test_case.args.input).unwrap();
        let got = add_task_usecase.repository().find_by_id(id).unwrap().unwrap();

        assert_eq!(got.title(), test_case.want.title(), "Failed in the \"{}\".", test_case.name,);

        assert_eq!(
            got.priority(),
            test_case.want.priority(),
            "Failed in the \"{}\".",
            test_case.name,
        );

        assert_eq!(got.cost(), test_case.want.cost(), "Failed in the \"{}\".", test_case.name,);
    }
}

#[test]
fn close_task_usecase_test_execute() {
    #[derive(Debug)]
    struct Args {
        input: CloseTaskUseCaseInput,
    }

    #[derive(Debug)]
    struct Want {
        title: String,
        is_closed: bool,
    }

    #[derive(Debug)]
    struct TestCase {
        args: Args,
        want: Option<Want>,
        want_error: Option<UseCaseError>,
        name: String,
    }

    let given = Task::new("title".to_owned(), None, None);

    let table = [
        TestCase {
            name: String::from("normal: close a task"),
            args: Args { input: CloseTaskUseCaseInput { id: 1 } },
            want: Some(Want { title: "title".to_owned(), is_closed: true }),
            want_error: None,
        },
        TestCase {
            name: String::from("abnormal: already closed"),
            args: Args { input: CloseTaskUseCaseInput { id: 1 } },
            want: None,
            want_error: Some(UseCaseError::AlreadyClosed(1)),
        },
        TestCase {
            name: String::from("abnormal: not found"),
            args: Args { input: CloseTaskUseCaseInput { id: 2 } },
            want: None,
            want_error: Some(UseCaseError::NotFound(2)),
        },
    ];

    let mut task_repository =
        TaskRepository::new(rusqlite::Connection::open_in_memory().unwrap());
    task_repository.create_table_if_not_exists().unwrap();
    task_repository.add(given).unwrap();
    let mut close_task_usecase = CloseTaskUseCase::new(task_repository);

    for test_case in table {
        match close_task_usecase.execute(test_case.args.input) {
            Ok(id) => {
                let want = test_case.want.unwrap();

                let got = close_task_usecase.repository().find_by_id(id).unwrap().unwrap();

                assert_eq!(got.title(), want.title, "failed in the \"{}\".", test_case.name,);

                assert_eq!(
                    got.is_closed(),
                    want.is_closed,
                    "Failed in the \"{}\".",
                    test_case.name,
                );
            },
            Err(err) => {
                assert_eq!(
                    err.message(),
                    test_case.want_error.unwrap().message(),
                    "Failed in the \"{}\".",
                    test_case.name,
                );
            },
        };
    }
}

#[test]
fn edit_task_usecase_test_execute() {
    #[derive(Debug)]
    struct Args {
        input: EditTaskUseCaseInput,
    }

    #[derive(Debug)]
    struct TestCase {
        args: Args,
        want: Option<Task>,
        want_error: Option<UseCaseError>,
        name: String,
    }

    let given = vec![
        Task::new("title".to_owned(), None, None),
        Task::from_repository(
            ID::new(2),
            "closed".to_owned(),
            true,
            Priority::new(10),
            Cost::new(10),
            0,
        ),
    ];

    let table = [
        TestCase {
            name: String::from("normal: with title, priority and cost"),
            args: Args {
                input: EditTaskUseCaseInput {
                    id: 1,
                    title: Some(String::from("title1")),
                    priority: Some(100),
                    cost: Some(200),
                },
            },
            want: Some(
                Task::new("title1".to_owned(), Some(Priority::new(100)), Some(Cost::new(200))),
            ),
            want_error: None,
        },
        TestCase {
            name: String::from("normal: without title, priority and cost"),
            args: Args {
                input: EditTaskUseCaseInput { id: 1, title: None, priority: None, cost: None },
            },
            want: Some(
                Task::new("title1".to_owned(), Some(Priority::new(100)), Some(Cost::new(200))),
            ),
            want_error: None,
        },
        TestCase {
            name: String::from("abnormal: not found"),
            args: Args {
                input: EditTaskUseCaseInput { id: 3, title: None, priority: None, cost: None },
            },
            want: None,
            want_error: Some(UseCaseError::NotFound(3)),
        },
        TestCase {
            name: String::from("abnormal: already closed"),
            args: Args {
                input: EditTaskUseCaseInput { id: 2, title: None, priority: None, cost: None },
            },
            want: None,
            want_error: Some(UseCaseError::AlreadyClosed(2)),
        },
    ];

    let mut task_repository =
        TaskRepository::new(rusqlite::Connection::open_in_memory().unwrap());
    task_repository.create_table_if_not_exists().unwrap();
    for g in given.into_iter() {
        task_repository.add(g).unwrap();
    }
    let mut edit_task_usecase = EditTaskUseCase::new(task_repository);

    for test_case in table {
        match edit_task_usecase.execute(test_case.args.input) {
            Ok(id) => {
                let want = test_case.want.unwrap();

                let got = edit_task_usecase.repository().find_by_id(id).unwrap().unwrap();

                assert_eq!(got.title(), want.title(), "failed in the \"{}\".", test_case.name,);

                assert_eq!(
                    got.priority(),
                    want.priority(),
                    "Failed in the \"{}\".",
                    test_case.name,
                );

                assert_eq!(got.cost(), want.cost(), "Failed in the \"{}\".", test_case.name,);
            },
            Err(err) => {
                assert_eq!(
                    err.message(),
                    test_case.want_error.unwrap().message(),
                    "Failed in the \"{}\".",
                    test_case.name,
                );
            },
        };
    }
}

fn make_task(seed: u64, is_closed: bool) -> Task {
    Task::from_repository(
        ID::new(seed as i64),
        seed.to_string(),
        is_closed,
        Priority::new(seed as i32),
        Cost::new(seed as i32),
        seed,
    )
}

fn make_task_dto(seed: u64) -> TaskDTO {
    TaskDTO { id: seed as i64, title: seed.to_string(), priority: seed as i32, cost: seed as i32 }
}

#[test]
fn list_task_usecase_test_execute() {
    #[derive(Debug)]
    struct Args {
        input: ListTaskUseCaseInput,
    }

    #[derive(Debug)]
    struct TestCase {
        given: Vec<Task>,
        args: Args,
        want: Vec<TaskDTO>,
        name: String,
    }

    let table = [TestCase {
        name: String::from("nominal: with priority and cost"),
        given: vec![
            make_task(1, false),
            make_task(2, false),
            make_task(3, true),
            make_task(4, false),
        ],
        args: Args { input: ListTaskUseCaseInput {} },
        want: vec![make_task_dto(1), make_task_dto(2), make_task_dto(4)],
    }];

    for test_case in table {
        let mut task_repository =
            TaskRepository::new(rusqlite::Connection::open_in_memory().unwrap());
        task_repository.create_table_if_not_exists().unwrap();

        for gt in test_case.given {
            task_repository.add(gt).unwrap();
        }

        let list_task_usecase = ListTaskUseCase::new(task_repository);
        let got = list_task_usecase.execute(test_case.args.input).unwrap();

        assert_eq!(got, test_case.want, "Failed in the \"{}\".", test_case.name,);
    }
}
