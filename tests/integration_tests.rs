use todo_cli::storage::{load_step, save_step, SaveEvent, SaveStep};
use todo_cli::{
    add_task, decode_tasks, delete_task, encode_tasks, toggle_task, Date, FileRead, LoadEvent,
    LoadNote, LoadStep, Task, TaskError,
};

fn today() -> Date {
    Date { year: 2025, month: 11, day: 10 }
}

fn sample() -> Vec<Task> {
    vec![
        Task { id: 1, text: "Buy milk".to_string(), done: false, due_date: Some("2025-11-08".to_string()) },
        Task { id: 2, text: "Call mom".to_string(), done: true, due_date: None },
    ]
}

#[test]
fn test_full_task_workflow() {
    let mut tasks = sample();
    let initial_count = tasks.len();

    let unique_task_name = format!("Integration test task {}", 7);
    let id = add_task(&mut tasks, unique_task_name.clone(), today(), 0).unwrap();

    assert_eq!(tasks.len(), initial_count + 1);

    let test_task = tasks.iter().find(|t| t.text == unique_task_name).expect("Test task should exist");
    let test_task_id = test_task.id;
    assert_eq!(test_task_id, id);
    assert!(!test_task.done);

    toggle_task(&mut tasks, test_task_id).unwrap();

    let completed_task = tasks.iter().find(|t| t.id == test_task_id).expect("Test task should still exist");
    assert!(completed_task.done);

    delete_task(&mut tasks, test_task_id).unwrap();

    assert_eq!(tasks.len(), initial_count);
    assert!(!tasks.iter().any(|t| t.id == test_task_id));
}

#[test]
fn test_task_persistence() {
    let initial_tasks = sample();
    let initial_count = initial_tasks.len();

    let mut new_tasks = initial_tasks.clone();
    new_tasks.push(Task {
        id: 99999,
        text: "Persistence test".to_string(),
        done: false,
        due_date: Some("2025-12-25".to_string()),
    });

    let saved = encode_tasks(&new_tasks);
    let loaded_tasks = decode_tasks(&saved).unwrap();
    assert_eq!(loaded_tasks.len(), initial_count + 1);

    let persistent_task = loaded_tasks.iter().find(|t| t.id == 99999).expect("Persistent task should exist");

    assert_eq!(persistent_task.text, "Persistence test");
    assert_eq!(persistent_task.due_date, Some("2025-12-25".to_string()));
    assert!(!persistent_task.done);
}

#[test]
fn test_error_handling_workflow() {
    let mut tasks = sample();
    let before = tasks.clone();

    assert!(toggle_task(&mut tasks, 99999999).is_err());
    assert!(delete_task(&mut tasks, 99999999).is_err());

    assert!(add_task(&mut tasks, "".to_string(), today(), 0).is_err());
    assert!(add_task(&mut tasks, "a".repeat(501), today(), 0).is_err());

    assert_eq!(tasks, before);
}

#[test]
fn test_backup_workflow() {
    let broken = || LoadEvent::Read(FileRead::Failed(TaskError::InvalidInput("not JSON".to_string())));

    let step = load_step(LoadStep::ReadPrimary, broken());
    assert!(matches!(step, LoadStep::RestoreBackup));
    let step = load_step(step, LoadEvent::BackupCopied(true));
    assert!(matches!(step, LoadStep::ReadRestored));
    let step = load_step(step, LoadEvent::Read(FileRead::Parsed(encode_tasks(&sample()))));
    match step {
        LoadStep::Finished(tasks, note) => {
            assert_eq!(tasks, sample());
            assert_eq!(note, LoadNote::Restored);
        }
        _ => panic!("loading should be over"),
    }

    let step = load_step(LoadStep::ReadPrimary, broken());
    let step = load_step(step, LoadEvent::BackupCopied(false));
    match step {
        LoadStep::Finished(tasks, note) => {
            assert!(tasks.is_empty());
            assert_eq!(note, LoadNote::NoBackup);
        }
        _ => panic!("loading should be over"),
    }
}

#[test]
fn test_data_validation_integration() {
    let mut tasks = sample();
    let initial_count = tasks.len();

    assert!(add_task(&mut tasks, "".to_string(), today(), 0).is_err());
    assert!(add_task(&mut tasks, "   ".to_string(), today(), 0).is_err());

    assert_eq!(tasks.len(), initial_count);

    assert!(toggle_task(&mut tasks, 0).is_err());
    assert!(delete_task(&mut tasks, 0).is_err());
    assert!(toggle_task(&mut tasks, 999999).is_err());
    assert!(delete_task(&mut tasks, 999999).is_err());

    assert_eq!(tasks.len(), initial_count);

    for task in &tasks {
        assert!(task.id > 0);
        assert!(!task.text.is_empty());
        assert!(task.text.len() <= 500);

        if let Some(ref due_date) = task.due_date {
            assert_eq!(due_date.len(), 10);
            assert_eq!(due_date.chars().nth(4).unwrap(), '-');
            assert_eq!(due_date.chars().nth(7).unwrap(), '-');
        }
    }
}

#[test]
fn save_backs_up_before_writing() {
    let step = save_step(SaveStep::CheckFile, SaveEvent::FileExists(true));
    assert!(matches!(step, SaveStep::MakeBackup));
    let step = save_step(step, SaveEvent::Written(Ok(())));
    assert!(matches!(step, SaveStep::MakeBackup));
    let step = save_step(step, SaveEvent::BackupMade(Ok(())));
    assert!(matches!(step, SaveStep::Encode));
    let step = save_step(step, SaveEvent::ReadBack(Ok(encode_tasks(&sample()))));
    assert!(matches!(step, SaveStep::WriteFile));
    let step = save_step(step, SaveEvent::Written(Ok(())));
    assert!(matches!(step, SaveStep::Done(Ok(()))));

    let failed = save_step(SaveStep::MakeBackup, SaveEvent::BackupMade(Err(TaskError::InvalidInput("disk full".to_string()))));
    assert!(matches!(failed, SaveStep::Done(Err(TaskError::InvalidInput(_)))));
    let fresh = save_step(SaveStep::CheckFile, SaveEvent::FileExists(false));
    assert!(matches!(fresh, SaveStep::Encode));
    let unreadable = save_step(SaveStep::Encode, SaveEvent::ReadBack(Ok(todo_cli::Json::Null)));
    assert!(matches!(unreadable, SaveStep::Done(Err(TaskError::InvalidInput(_)))));
}
