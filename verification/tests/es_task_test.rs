use taskmr::component::{AggregateID, DomainEventEnvelope};
use taskmr::es_task::{Cost, Priority, SequentialID, Task, TaskCommand, TaskDomainEvent, TaskSource};

fn assert_events(got: &Vec<DomainEventEnvelope<TaskDomainEvent>>, want: &Vec<TaskDomainEvent>) {
    let mut counter: i32 = 0;
    for (g, w) in got.iter().zip(want.iter()) {
        assert_eq!(g.aggregate_version(), counter);
        assert_eq!(g.event(), w);
        counter += 1;
    }
}

#[test]
fn test_create() {
    #[derive(Debug, PartialEq, Eq)]
    struct TargetState {
        title: String,
        priority: Priority,
        cost: Cost,
    }

    #[derive(Debug)]
    struct TestCase {
        args: TaskSource,
        want_state: TargetState,
        want_events: Vec<TaskDomainEvent>,
        name: String,
    }

    let aggregate_id = AggregateID::new();

    let table = [
        TestCase {
            name: String::from("with priority and cost"),
            args: TaskSource {
                aggregate_id: aggregate_id.clone(),
                sequential_id: SequentialID::new(10),
                title: String::from("title1"),
                priority: Some(Priority::new(100)),
                cost: Some(Cost::new(100)),
            },
            want_state: TargetState {
                title: "title1".into(),
                priority: Priority::new(100),
                cost: Cost::new(100),
            },
            want_events: vec![
                TaskDomainEvent::Created {
                    aggregate_id: aggregate_id.clone(),
                    sequential_id: SequentialID::new(10),
                },
                TaskDomainEvent::TitleEdited { title: "title1".into() },
                TaskDomainEvent::PriorityRescored { priority: Priority::new(100) },
            ],
        },
        TestCase {
            name: String::from("withtout priority and cost"),
            args: TaskSource {
                aggregate_id: aggregate_id.clone(),
                sequential_id: SequentialID::new(10),
                title: String::from("title2"),
                priority: None,
                cost: None,
            },
            want_state: TargetState {
                title: "title2".into(),
                priority: Priority::new(10),
                cost: Cost::new(10),
            },
            want_events: vec![
                TaskDomainEvent::Created {
                    aggregate_id: aggregate_id.clone(),
                    sequential_id: SequentialID::new(10),
                },
                TaskDomainEvent::TitleEdited { title: "title2".into() },
            ],
        },
    ];

    for test_case in table {
        let task = Task::create(test_case.args);
        let got_state = TargetState {
            title: task.title().into(),
            priority: task.priority(),
            cost: task.cost(),
        };

        assert_eq!(got_state, test_case.want_state, "Failed in the \"{}\".", test_case.name,);

        assert_events(task.events(), &test_case.want_events);
    }
}

#[test]
fn es_task_test_execute() {
    const TITLE: &str = "title";

    #[derive(Debug, PartialEq, Eq)]
    struct TargetState {
        title: String,
        priority: Priority,
        cost: Cost,
        is_closed: bool,
        sequential_id: SequentialID,
    }

    #[derive(Debug)]
    struct TestCase {
        command: TaskCommand,
        want_state: TargetState,
        want_events: Vec<TaskDomainEvent>,
        name: String,
    }

    let aggregate_id = AggregateID::new();

    let table = [
        TestCase {
            name: String::from("close"),
            command: TaskCommand::Close,
            want_state: TargetState {
                title: TITLE.to_owned(),
                priority: Priority::new(10),
                cost: Cost::new(10),
                is_closed: true,
                sequential_id: SequentialID::new(10),
            },
            want_events: vec![
                TaskDomainEvent::Created {
                    aggregate_id: aggregate_id.clone(),
                    sequential_id: SequentialID::new(10),
                },
                TaskDomainEvent::TitleEdited { title: TITLE.to_owned() },
                TaskDomainEvent::Closed,
            ],
        },
        TestCase {
            name: String::from("rescore priority"),
            command: TaskCommand::RescorePriority { priority: Priority::new(100) },
            want_state: TargetState {
                title: TITLE.to_owned(),
                priority: Priority::new(100),
                cost: Cost::new(10),
                is_closed: false,
                sequential_id: SequentialID::new(10),
            },
            want_events: vec![
                TaskDomainEvent::Created {
                    aggregate_id: aggregate_id.clone(),
                    sequential_id: SequentialID::new(10),
                },
                TaskDomainEvent::TitleEdited { title: TITLE.to_owned() },
                TaskDomainEvent::PriorityRescored { priority: Priority::new(100) },
            ],
        },
        TestCase {
            name: String::from("rescore cost"),
            command: TaskCommand::RescoreCost { cost: Cost::new(100) },
            want_state: TargetState {
                title: TITLE.to_owned(),
                priority: Priority::new(10),
                cost: Cost::new(100),
                is_closed: false,
                sequential_id: SequentialID::new(10),
            },
            want_events: vec![
                TaskDomainEvent::Created {
                    aggregate_id: aggregate_id.clone(),
                    sequential_id: SequentialID::new(10),
                },
                TaskDomainEvent::TitleEdited { title: TITLE.to_owned() },
                TaskDomainEvent::CostRescored { cost: Cost::new(100) },
            ],
        },
        TestCase {
            name: String::from("edit title"),
            command: TaskCommand::EditTitle { title: "edited title".to_owned() },
            want_state: TargetState {
                title: "edited title".to_owned(),
                priority: Priority::new(10),
                cost: Cost::new(10),
                is_closed: false,
                sequential_id: SequentialID::new(10),
            },
            want_events: vec![
                TaskDomainEvent::Created {
                    aggregate_id: aggregate_id.clone(),
                    sequential_id: SequentialID::new(10),
                },
                TaskDomainEvent::TitleEdited { title: TITLE.to_owned() },
                TaskDomainEvent::TitleEdited { title: "edited title".to_owned() },
            ],
        },
    ];

    for test_case in table {
        let mut task = Task::create(TaskSource {
            aggregate_id: aggregate_id.clone(),
            sequential_id: SequentialID::new(10),
            title: TITLE.to_owned(),
            priority: None,
            cost: None,
        });
        task.execute(test_case.command).unwrap();
        let got_state = TargetState {
            title: task.title().into(),
            priority: task.priority(),
            cost: task.cost(),
            is_closed: task.is_closed(),
            sequential_id: task.sequential_id(),
        };

        assert_eq!(got_state, test_case.want_state, "Failed in the \"{}\".", test_case.name,);

        assert_events(task.events(), &test_case.want_events);
    }
}
