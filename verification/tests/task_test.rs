use taskmr::task::{Cost, Priority, Task, ID};

#[test]
fn test_new() {
    #[derive(Debug)]
    struct Args {
        title: String,
        priority: Option<Priority>,
        cost: Option<Cost>,
    }

    #[derive(Debug)]
    struct TestCase {
        args: Args,
        expected: Task,
        name: String,
    }

    let table = [
        TestCase {
            name: String::from("nominal: with priority and cost"),
            args: Args {
                title: String::from("title1"),
                priority: Some(Priority::new(100)),
                cost: Some(Cost::new(100)),
            },
            expected: Task::from_repository(
                ID::new(0),
                String::from("title1"),
                false,
                Priority::new(100),
                Cost::new(100),
                0,
            ),
        },
        TestCase {
            name: String::from("nominal: withtout priority and cost"),
            args: Args {
                title: String::from("title2"),
                priority: None,
                cost: None,
            },
            expected: Task::from_repository(
                ID::new(0),
                String::from("title2"),
                false,
                Priority::new(10),
                Cost::new(10),
                0,
            ),
        },
    ];

    for test_case in table {
        assert_eq!(
            Task::new(test_case.args.title, test_case.args.priority, test_case.args.cost),
            test_case.expected,
            "Failed in the \"{}\".",
            test_case.name,
        );
    }
}

#[test]
fn test_from_repository_and_getter() {
    #[derive(Debug)]
    struct Args {
        id: ID,
        title: String,
        is_closed: bool,
        priority: Priority,
        cost: Cost,
        elapsed_time: u64,
    }

    #[derive(Debug)]
    struct Wants<'w> {
        id: ID,
        title: &'w str,
        is_closed: bool,
        priority: Priority,
        cost: Cost,
        elapsed_time: u64,
    }

    #[derive(Debug)]
    struct TestCase<'tc> {
        args: Args,
        want: Wants<'tc>,
        name: String,
    }

    let table = [TestCase {
        name: String::from("nominal: with priority and cost"),
        args: Args {
            id: ID::new(1),
            title: String::from("title1"),
            is_closed: true,
            priority: Priority::new(2),
            cost: Cost::new(3),
            elapsed_time: 4,
        },
        want: Wants {
            id: ID::new(1),
            title: "title1",
            is_closed: true,
            priority: Priority::new(2),
            cost: Cost::new(3),
            elapsed_time: 4,
        },
    }];

    for test_case in table {
        let got = Task::from_repository(
            test_case.args.id,
            test_case.args.title,
            test_case.args.is_closed,
            test_case.args.priority,
            test_case.args.cost,
            test_case.args.elapsed_time,
        );
        assert_eq!(got.id(), test_case.want.id, "Failed in the \"{}\".", test_case.name);
        assert_eq!(got.title(), test_case.want.title, "Failed in the \"{}\".", test_case.name);
        assert_eq!(
            got.is_closed(),
            test_case.want.is_closed,
            "Failed in the \"{}\".",
            test_case.name
        );
        assert_eq!(
            got.priority(),
            test_case.want.priority,
            "Failed in the \"{}\".",
            test_case.name
        );
        assert_eq!(got.cost(), test_case.want.cost, "Failed in the \"{}\".", test_case.name);
        assert_eq!(
            got.elapsed_time(),
            test_case.want.elapsed_time,
            "Failed in the \"{}\".",
            test_case.name
        );
    }
}
