use taskmr::error::UseCaseError;
use taskmr::es_add_task_usecase::{AddTaskUseCase, AddTaskUseCaseInput};
use taskmr::es_close_task_usecase::{CloseTaskUseCase, CloseTaskUseCaseInput};
use taskmr::es_edit_task_usecase::{EditTaskUseCase, EditTaskUseCaseInput};
use taskmr::es_list_task_usecase::{ListTaskUseCase, ListTaskUseCaseInput, TaskDTO};
use taskmr::es_task::SequentialID;
use taskmr::es_task_repository::TaskRepository;

fn fresh_repository() -> TaskRepository {
    let mut repository = TaskRepository::new(rusqlite::Connection::open_in_memory().unwrap());
    repository.create_table_if_not_exists().unwrap();
    repository
}

#[test]
fn es_add_task_usecase_test_execute() {
    #[derive(Debug)]
    struct Want {
        title: String,
        priority: i32,
        cost: i32,
    }

    #[derive(Debug)]
    struct TestCase {
        input: AddTaskUseCaseInput,
        want: Want,
        name: String,
    }

    let table = [
        TestCase {
            name: String::from("normal: with priority and cost"),
            input: AddTaskUseCaseInput {
                title: String::from("title1"),
                priority: Some(100),
                cost: Some(200),
            },
            want: Want { title: "title1".to_owned(), priority: 100, cost: 200 },
        },
        TestCase {
            name: String::from("normal: without priority and cost"),
            input: AddTaskUseCaseInput {
                title: String::from("title2"),
                priority: None,
                cost: None,
            },
            want: Want { title: "title2".to_owned(), priority: 10, cost: 10 },
        },
    ];

    let mut add_task_usecase = AddTaskUseCase::new(fresh_repository());

    for test_case in table {
        let id = add_task_usecase.execute(test_case.input).unwrap();
        let got = add_task_usecase.repository().load_by_sequential_id(id).unwrap().unwrap();

        assert_eq!(got.title(), test_case.want.title, "Failed in the \"{}\".", test_case.name,);

        assert_eq!(
            got.priority().to_i32(),
            test_case.want.priority,
            "Failed in the \"{}\".",
            test_case.name,
        );

        assert_eq!(
            got.cost().to_i32(),
            test_case.want.cost,
            "Failed in the \"{}\".",
            test_case.name,
        );
    }
}

#[test]
fn es_close_task_usecase_test_execute() {
    #[derive(Debug)]
    struct Want {
        title: String,
        is_closed: bool,
    }

    #[derive(Debug)]
    struct TestCase {
        input: CloseTaskUseCaseInput,
        want: Option<Want>,
        want_error: Option<UseCaseError>,
        name: String,
    }

    let table = [
        TestCase {
            name: String::from("normal: close a task"),
            input: CloseTaskUseCaseInput { sequential_id: SequentialID::new(1) },
            want: Some(Want { title: "title".to_owned(), is_closed: true }),
            want_error: None,
        },
        TestCase {
            name: String::from("abnormal: already closed"),
            input: CloseTaskUseCaseInput { sequential_id: SequentialID::new(1) },
            want: None,
            want_error: Some(UseCaseError::AlreadyClosed(1)),
        },
        TestCase {
            name: String::from("abnormal: not found"),
            input: CloseTaskUseCaseInput { sequential_id: SequentialID::new(2) },
            want: None,
            want_error: Some(UseCaseError::NotFound(2)),
        },
    ];

    let mut add_task_usecase = AddTaskUseCase::new(fresh_repository());

    add_task_usecase
        .execute(AddTaskUseCaseInput { title: "title".to_owned(), priority: None, cost: None })
        .unwrap();

    let mut close_task_usecase = CloseTaskUseCase::new(add_task_usecase.into_repository());
    for test_case in table {
        match close_task_usecase.execute(test_case.input) {
            Ok(sequential_id) => {
                let want = test_case.want.unwrap();

                let got = close_task_usecase
                    .repository()
                    .load_by_sequential_id(sequential_id)
                    .unwrap()
                    .unwrap();

                assert_eq!(got.title(), want.title, "failed in the \"{}\".", test_case.name,);

                assert_eq!(
                    got.is_closed(),
                    want.is_closed,
                    "Failed in the \"{}\".",
                    test_case.name,
                );
            },
            Err(err) => {
                assert_eq!(
                    err.message(),
                    test_case.want_error.unwrap().message(),
                    "Failed in the \"{}\".",
                    test_case.name,
                );
            },
        };
    }
}

#[test]
fn edit_es_task_usecase_test_execute() {
    #[derive(Debug)]
    struct Want {
        title: String,
        priority: i32,
        cost: i32,
    }

    #[derive(Debug)]
    struct TestCase {
        input: EditTaskUseCaseInput,
        want: Option<Want>,
        want_error: Option<UseCaseError>,
        name: String,
    }

    let mut add_task_usecase = AddTaskUseCase::new(fresh_repository());

    add_task_usecase
        .execute(AddTaskUseCaseInput { title: "title".to_owned(), priority: None, cost: None })
        .unwrap();

    add_task_usecase
        .execute(AddTaskUseCaseInput { title: "closed".to_owned(), priority: None, cost: None })
        .unwrap();

    let mut close_task_usecase = CloseTaskUseCase::new(add_task_usecase.into_repository());

    close_task_usecase
        .execute(CloseTaskUseCaseInput { sequential_id: SequentialID::new(2) })
        .unwrap();

    let table = [
        TestCase {
            name: String::from("normal: with title, priority and cost"),
            input: EditTaskUseCaseInput {
                sequential_id: SequentialID::new(1),
                title: Some(String::from("title1")),
                priority: Some(100),
                cost: Some(200),
            },
            want: Some(Want { title: "title1".to_owned(), priority: 100, cost: 200 }),
            want_error: None,
        },
        TestCase {
            name: String::from("normal: without title, priority and cost"),
            input: EditTaskUseCaseInput {
                sequential_id: SequentialID::new(1),
                title: None,
                priority: None,
                cost: None,
            },
            want: Some(Want { title: "title1".to_owned(), priority: 100, cost: 200 }),
            want_error: None,
        },
        TestCase {
            name: String::from("abnormal: not found"),
            input: EditTaskUseCaseInput {
                sequential_id: SequentialID::new(3),
                title: None,
                priority: None,
                cost: None,
            },
            want: None,
            want_error: Some(UseCaseError::NotFound(3)),
        },
        TestCase {
            name: String::from("abnormal: already closed"),
            input: EditTaskUseCaseInput {
                sequential_id: SequentialID::new(2),
                title: None,
                priority: None,
                cost: None,
            },
            want: None,
            want_error: Some(UseCaseError::AlreadyClosed(2)),
        },
    ];

    let mut edit_task_usecase = EditTaskUseCase::new(close_task_usecase.into_repository());

    for test_case in table {
        match edit_task_usecase.execute(test_case.input) {
            Ok(id) => {
                let want = test_case.want.unwrap();

                let got =
                    edit_task_usecase.repository().load_by_sequential_id(id).unwrap().unwrap();

                assert_eq!(got.title(), want.title, "failed in the \"{}\".", test_case.name,);

                assert_eq!(
                    got.priority().to_i32(),
                    want.priority,
                    "Failed in the \"{}\".",
                    test_case.name,
                );

                assert_eq!(
                    got.cost().to_i32(),
                    want.cost,
                    "Failed in the \"{}\".",
                    test_case.name,
                );
            },
            Err(err) => {
                assert_eq!(
                    err.message(),
                    test_case.want_error.unwrap().message(),
                    "Failed in the \"{}\".",
                    test_case.name,
                );
            },
        };
    }
}

fn make_task_dto(seed: u64) -> TaskDTO {
    TaskDTO { id: seed as i64, title: seed.to_string(), priority: 10, cost: 10 }
}

#[test]
fn es_list_task_usecase_test_execute() {
    #[derive(Debug)]
    struct GivenTask {
        seed: u64,
        is_closed: bool,
    }

    #[derive(Debug)]
    struct TestCase {
        given: Vec<GivenTask>,
        want: Vec<TaskDTO>,
        name: String,
    }

    let table = [
        TestCase {
            name: String::from("normal: with priority and cost"),
            given: vec![
                GivenTask { seed: 1, is_closed: false },
                GivenTask { seed: 2, is_closed: false },
                GivenTask { seed: 3, is_closed: true },
                GivenTask { seed: 4, is_closed: false },
            ],
            want: vec![make_task_dto(1), make_task_dto(2), make_task_dto(4)],
        },
        TestCase {
            name: String::from("normal: empty"),
            given: vec![
                GivenTask { seed: 1, is_closed: true },
                GivenTask { seed: 2, is_closed: true },
            ],
            want: vec![],
        },
        TestCase {
            name: String::from("normal: empty2"),
            given: vec![],
            want: vec![],
        },
    ];

    for test_case in table {
        let mut add_task_usecase = AddTaskUseCase::new(fresh_repository());
        let mut to_close: Vec<SequentialID> = Vec::new();

        for gt in test_case.given {
            let sequential_id = add_task_usecase
                .execute(AddTaskUseCaseInput {
                    title: gt.seed.to_string(),
                    priority: None,
                    cost: None,
                })
                .unwrap();

            if gt.is_closed {
                to_close.push(sequential_id);
            }
        }

        let mut close_task_usecase = CloseTaskUseCase::new(add_task_usecase.into_repository());
        for sequential_id in to_close {
            close_task_usecase.execute(CloseTaskUseCaseInput { sequential_id }).unwrap();
        }

        let list_task_usecase = ListTaskUseCase::new(close_task_usecase.into_repository());
        let got = list_task_usecase.execute(ListTaskUseCaseInput {}).unwrap();

        assert_eq!(got, test_case.want, "Failed in the \"{}\".", test_case.name,);
    }
}
