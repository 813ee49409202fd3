use todo_cli::{add_task, Date, Task};

fn today() -> Date {
    Date { year: 2025, month: 11, day: 10 }
}

#[test]
fn test_add_task_basic() {
    let mut tasks: Vec<Task> = Vec::new();
    let initial_count = tasks.len();

    let r = add_task(&mut tasks, "Test task".to_string(), today(), 0);
    assert!(r.is_ok());

    assert_eq!(tasks.len(), initial_count + 1);
    assert_eq!(tasks[0].text, "Test task");
    assert_eq!(tasks[0].due_date, Some("2025-11-10".to_string()));
}

#[test]
fn test_add_task_validation() {
    let mut tasks = vec![Task { id: 1, text: "Keep".to_string(), done: false, due_date: None }];
    let initial_count = tasks.len();

    assert!(add_task(&mut tasks, "".to_string(), today(), 0).is_err());
    assert!(add_task(&mut tasks, "   ".to_string(), today(), 0).is_err());

    assert_eq!(tasks.len(), initial_count);

    let long_text = "a".repeat(501);
    assert!(add_task(&mut tasks, long_text, today(), 0).is_err());

    assert_eq!(tasks.len(), initial_count);
}

#[test]
fn test_empty_task_list_display() {
    let empty_tasks: Vec<&Task> = vec![];
    assert_eq!(empty_tasks.len(), 0);
}

#[test]
fn test_task_grouping_logic() {
    let task1 = Task {
        id: 1,
        text: "Task 1".to_string(),
        done: false,
        due_date: Some("2025-11-08".to_string()),
    };

    let task2 = Task {
        id: 2,
        text: "Task 2".to_string(),
        done: false,
        due_date: Some("2025-12-15".to_string()),
    };

    let task3 = Task {
        id: 3,
        text: "Task 3".to_string(),
        done: false,
        due_date: None,
    };

    let tasks = vec![&task1, &task2, &task3];

    assert_eq!(tasks.len(), 3);
    assert!(task1.due_date.is_some());
    assert!(task2.due_date.is_some());
    assert!(task3.due_date.is_none());
}
