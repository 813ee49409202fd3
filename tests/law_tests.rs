use todo_cli::commands::{
    answer_is_yes, archive_cutoff, count_done, due_class, highest_id, listed_before, listed_tasks,
    confirm_archive, matches_folded, month_group, month_name, pending_first, sort_for_listing,
    split_older, DueClass,
};
use todo_cli::storage::{backup_path, get_todo_dir, join_path, load_step};
use todo_cli::tui::{Key, KeyOutcome};
use todo_cli::{
    add_task, add_to_removed_result, decode_tasks, delete_task, edit_task, encode_tasks,
    get_data_location, get_removed_file_path, get_todos_file_path, search, set_due_date,
    toggle_task, validate_date, validate_json_file, validate_task_id, App, AppMode, Date,
    FileRead, Json, JsonNumber, LoadEvent, LoadNote, LoadStep, Task, TaskError,
};

fn day(year: u32, month: u32, day: u32) -> Date {
    Date { year, month, day }
}

fn task(id: u32, text: &str, done: bool, due: Option<&str>) -> Task {
    Task { id, text: text.to_string(), done, due_date: due.map(|d| d.to_string()) }
}

fn sample() -> Vec<Task> {
    vec![
        task(1, "Buy milk", false, Some("2025-11-08")),
        task(4, "Call mom", true, None),
        task(2, "Write \"report\"\n", false, Some("2025-11-10")),
    ]
}

#[test]
fn round_trip_keeps_every_task() {
    let tasks = sample();
    assert_eq!(decode_tasks(&encode_tasks(&tasks)).unwrap(), tasks);
    let empty: Vec<Task> = Vec::new();
    assert_eq!(decode_tasks(&encode_tasks(&empty)).unwrap(), empty);
    match encode_tasks(&tasks) {
        Json::Array(items) => match &items[1] {
            Json::Object(ms) => assert!(ms.iter().all(|(k, _)| k != "due_date")),
            _ => panic!("a task is an object"),
        },
        _ => panic!("a task list is an array"),
    }
}

#[test]
fn decoding_rejects_wrong_shapes() {
    let obj = |ms: Vec<(&str, Json)>| Json::Object(ms.into_iter().map(|(k, v)| (k.to_string(), v)).collect());
    let ok = obj(vec![
        ("done", Json::Bool(true)),
        ("text", Json::Str("x".to_string())),
        ("extra", Json::Null),
        ("id", Json::Number(JsonNumber::PosInt(7))),
        ("due_date", Json::Null),
    ]);
    let list = Json::Array(vec![ok]);
    assert_eq!(decode_tasks(&list).unwrap(), vec![task(7, "x", true, None)]);
    let big = obj(vec![
        ("id", Json::Number(JsonNumber::PosInt(1 << 32))),
        ("text", Json::Str("x".to_string())),
        ("done", Json::Bool(true)),
    ]);
    assert!(matches!(decode_tasks(&Json::Array(vec![big])), Err(TaskError::InvalidInput(_))));
    let no_done = obj(vec![("id", Json::Number(JsonNumber::PosInt(1))), ("text", Json::Str("x".to_string()))]);
    assert!(decode_tasks(&Json::Array(vec![no_done])).is_err());
    assert!(decode_tasks(&Json::Null).is_err());
}

#[test]
fn new_ids_follow_the_highest() {
    let mut tasks = sample();
    assert_eq!(highest_id(&tasks), 4);
    assert_eq!(add_task(&mut tasks, "Next".to_string(), day(2025, 11, 10), 2).unwrap(), 5);
    assert_eq!(tasks[3], task(5, "Next", false, Some("2025-11-12")));
    let mut empty: Vec<Task> = Vec::new();
    assert_eq!(add_task(&mut empty, "First".to_string(), day(2025, 11, 10), -1).unwrap(), 1);
    assert_eq!(empty[0].due_date, Some("2025-11-09".to_string()));
    let mut full = vec![task(u32::MAX, "Top", false, None)];
    assert!(add_task(&mut full, "More".to_string(), day(2025, 11, 10), 0).is_err());
    assert_eq!(full.len(), 1);
}

#[test]
fn date_validation_cases() {
    assert!(validate_date("2024-02-29").is_ok());
    assert!(validate_date("2023-02-29").is_err());
    assert!(validate_date("1900-02-29").is_err());
    assert!(validate_date("2000-02-29").is_ok());
    assert!(validate_date("2025-13-01").is_err());
    assert!(validate_date("2025-00-01").is_err());
    assert!(validate_date("2025-01-32").is_err());
    assert!(validate_date("").is_err());
    assert!(validate_date("2025/01/01").is_err());
}

#[test]
fn broken_file_is_replaced_by_its_backup() {
    let backup = sample();
    let step = load_step(
        LoadStep::ReadPrimary,
        LoadEvent::Read(FileRead::Failed(TaskError::InvalidInput("expected value".to_string()))),
    );
    assert!(matches!(step, LoadStep::RestoreBackup));
    let step = load_step(step, LoadEvent::BackupCopied(true));
    assert!(matches!(step, LoadStep::ReadRestored));
    match load_step(step, LoadEvent::Read(FileRead::Parsed(encode_tasks(&backup)))) {
        LoadStep::Finished(tasks, LoadNote::Restored) => assert_eq!(tasks, backup),
        _ => panic!("the backup's tasks should come back"),
    }
}

#[test]
fn broken_file_without_backup_gives_empty_list() {
    let step = load_step(
        LoadStep::ReadPrimary,
        LoadEvent::Read(FileRead::Failed(TaskError::InvalidInput("expected value".to_string()))),
    );
    match load_step(step, LoadEvent::BackupCopied(false)) {
        LoadStep::Finished(tasks, LoadNote::NoBackup) => assert!(tasks.is_empty()),
        _ => panic!("loading should end with an empty list"),
    }
    match load_step(LoadStep::ReadRestored, LoadEvent::Read(FileRead::Blank)) {
        LoadStep::Finished(tasks, LoadNote::Restored) => assert!(tasks.is_empty()),
        _ => panic!("a blank backup holds no tasks"),
    }
    let bad = vec![task(1, "", false, None)];
    match load_step(LoadStep::ReadRestored, LoadEvent::Read(FileRead::Parsed(encode_tasks(&bad)))) {
        LoadStep::Finished(tasks, LoadNote::BackupCorrupted) => assert!(tasks.is_empty()),
        _ => panic!("an invalid backup leaves an empty list"),
    }
}

#[test]
fn missing_and_blank_files_hold_no_tasks() {
    match load_step(LoadStep::ReadPrimary, LoadEvent::Read(FileRead::Missing)) {
        LoadStep::Finished(tasks, LoadNote::Loaded) => assert!(tasks.is_empty()),
        _ => panic!("a missing file holds no tasks"),
    }
    assert!(validate_json_file(FileRead::Blank).unwrap().is_empty());
    let bad_date = vec![task(1, "x", false, Some("2025-02-30"))];
    assert!(matches!(
        validate_json_file(FileRead::Parsed(encode_tasks(&bad_date))),
        Err(TaskError::InvalidDate(_))
    ));
    let long = vec![task(1, &"é".repeat(500), false, None)];
    assert!(validate_json_file(FileRead::Parsed(encode_tasks(&long))).is_ok());
}

#[test]
fn archive_cutoff_boundary() {
    let cutoff = archive_cutoff(day(2025, 11, 10), 0);
    assert_eq!(cutoff, "2025-11-10");
    let tasks = vec![
        task(1, "today", false, Some("2025-11-10")),
        task(2, "yesterday", false, Some("2025-11-09")),
        task(3, "two days ago", true, Some("2025-11-08")),
        task(4, "no date", false, None),
    ];
    let (kept, older) = split_older(tasks, &cutoff);
    assert_eq!(kept.iter().map(|t| t.id).collect::<Vec<_>>(), vec![1, 4]);
    assert_eq!(older.iter().map(|t| t.id).collect::<Vec<_>>(), vec![2, 3]);
    let cutoff = archive_cutoff(day(2025, 11, 10), 1);
    assert_eq!(cutoff, "2025-11-09");
    let tasks = vec![
        task(1, "today", false, Some("2025-11-10")),
        task(2, "yesterday", false, Some("2025-11-09")),
        task(3, "two days ago", true, Some("2025-11-08")),
    ];
    let (kept, older) = split_older(tasks, &cutoff);
    assert_eq!(kept.iter().map(|t| t.id).collect::<Vec<_>>(), vec![1, 2]);
    assert_eq!(older.iter().map(|t| t.id).collect::<Vec<_>>(), vec![3]);
    let (_, none_older) = split_older(vec![task(4, "no date", false, None)], "9999-12-31");
    assert!(none_older.is_empty());
}

#[test]
fn rejected_input_changes_nothing() {
    let mut tasks = sample();
    let before = tasks.clone();
    assert!(add_task(&mut tasks, "".to_string(), day(2025, 11, 10), 0).is_err());
    assert!(add_task(&mut tasks, "   ".to_string(), day(2025, 11, 10), 0).is_err());
    assert!(add_task(&mut tasks, "\u{3000}\t".to_string(), day(2025, 11, 10), 0).is_err());
    assert!(add_task(&mut tasks, "a".repeat(501), day(2025, 11, 10), 0).is_err());
    assert_eq!(tasks, before);
    assert!(add_task(&mut tasks, "a".repeat(500), day(2025, 11, 10), 0).is_ok());
    let before = tasks.clone();
    assert!(matches!(
        set_due_date(&mut tasks, 1, "not-a-date".to_string()),
        Err(TaskError::InvalidDate(d)) if d == "not-a-date"
    ));
    assert_eq!(tasks, before);
    assert!(edit_task(&mut tasks, 1, " ".to_string()).is_err());
    assert_eq!(tasks, before);
}

#[test]
fn absent_ids_change_nothing() {
    let mut tasks = sample();
    let before = tasks.clone();
    match toggle_task(&mut tasks, 0) {
        Err(TaskError::InvalidInput(m)) => assert_eq!(m, "Task ID cannot be 0"),
        _ => panic!("id 0 is never a task"),
    }
    match delete_task(&mut tasks, 999999) {
        Err(TaskError::InvalidInput(m)) => assert_eq!(m, "Task 999999 not found"),
        _ => panic!("no such task"),
    }
    assert_eq!(tasks, before);
    assert_eq!(validate_task_id(2, &tasks), Ok(2));
    assert_eq!(validate_task_id(3, &tasks), Err("Task 3 not found".to_string()));
}

#[test]
fn edits_change_one_task() {
    let mut tasks = sample();
    assert!(matches!(toggle_task(&mut tasks, 4), Ok(false)));
    assert!(!tasks[1].done);
    edit_task(&mut tasks, 2, "Write summary".to_string()).unwrap();
    assert_eq!(tasks[2].text, "Write summary");
    set_due_date(&mut tasks, 4, "2026-01-31".to_string()).unwrap();
    assert_eq!(tasks[1].due_date, Some("2026-01-31".to_string()));
    delete_task(&mut tasks, 1).unwrap();
    assert_eq!(tasks.iter().map(|t| t.id).collect::<Vec<_>>(), vec![4, 2]);
}

#[test]
fn search_ignores_case() {
    let tasks = sample();
    let found = search(&tasks, "BUY").unwrap();
    assert_eq!(found, vec![task(1, "Buy milk", false, Some("2025-11-08"))]);
    assert!(search(&tasks, "xyz").unwrap().is_empty());
    assert!(search(&tasks, "  ").is_err());
    assert!(search(&tasks, &"q".repeat(101)).is_err());
    assert!(matches_folded("buy milk", "milk"));
    assert!(!matches_folded("buy milk", "mild"));
}

#[test]
fn archive_appends_to_what_was_read() {
    let r = add_to_removed_result(Ok(vec![task(9, "old", true, None)]), vec![task(1, "new", false, None)]);
    assert_eq!(r.unwrap().iter().map(|t| t.id).collect::<Vec<_>>(), vec![9, 1]);
    let e = add_to_removed_result(Err(TaskError::InvalidInput("unreadable".to_string())), vec![]);
    assert!(e.is_err());
}

#[test]
fn listings_and_counts() {
    let tasks = sample();
    assert_eq!(listed_tasks(&tasks, false, false, "2025-11-10").len(), 2);
    assert_eq!(listed_tasks(&tasks, true, false, "2025-11-10").len(), 3);
    assert_eq!(listed_tasks(&tasks, false, true, "2025-11-10")[0].id, 2);
    assert_eq!(count_done(&tasks), 1);
    assert_eq!(due_class(&tasks[0], "2025-11-10", "2025-11-11"), DueClass::Overdue);
    assert_eq!(due_class(&tasks[1], "2025-11-10", "2025-11-11"), DueClass::Done);
    assert_eq!(due_class(&tasks[2], "2025-11-10", "2025-11-11"), DueClass::Today);
    assert_eq!(due_class(&task(5, "x", false, Some("2025-11-11")), "2025-11-10", "2025-11-11"), DueClass::Tomorrow);
    assert_eq!(due_class(&task(5, "x", false, Some("2025-12-01")), "2025-11-10", "2025-11-11"), DueClass::Later);
    assert!(listed_before(&tasks[0], &tasks[2]));
    assert!(listed_before(&tasks[2], &tasks[1]));
    assert!(!listed_before(&tasks[1], &tasks[0]));
}

#[test]
fn confirmation_answers() {
    assert!(answer_is_yes(" Y \n"));
    assert!(answer_is_yes("YES"));
    assert!(!answer_is_yes("no"));
    assert!(!answer_is_yes(""));
}

#[test]
fn storage_paths() {
    let dir = get_todo_dir(Some("/home/ann".to_string()), None).unwrap();
    assert_eq!(dir, "/home/ann/.todo");
    assert_eq!(get_todo_dir(None, Some("C:/Users/ann/".to_string())).unwrap(), "C:/Users/ann/.todo");
    assert!(get_todo_dir(None, None).is_err());
    assert_eq!(get_todos_file_path(&dir), "/home/ann/.todo/todos.json");
    assert_eq!(get_removed_file_path(&dir), "/home/ann/.todo/removed.json");
    assert_eq!(backup_path("/home/ann/.todo/todos.json"), "/home/ann/.todo/todos.json.backup");
    assert_eq!(join_path("", "x"), "x");
    assert_eq!(get_data_location(&Ok("/a/todos.json".to_string())), "/a/todos.json");
    assert_eq!(
        get_data_location(&Err(TaskError::InvalidInput("no home".to_string()))),
        "Error: Could not determine data location"
    );
}

#[test]
fn interactive_view_moves_and_edits() {
    let mut app = App::new(sample());
    assert_eq!(app.selected, Some(0));
    assert_eq!(app.handle_key(Key::Up), KeyOutcome::Redraw);
    assert_eq!(app.selected, Some(2));
    app.handle_key(Key::Char('j'));
    assert_eq!(app.selected, Some(0));
    assert_eq!(app.handle_key(Key::Char(' ')), KeyOutcome::Save);
    assert!(app.tasks[0].done);
    assert_eq!(app.message.as_deref(), Some("Task 1 completed!"));
    app.handle_key(Key::Char('a'));
    assert_eq!(app.mode, AppMode::Adding);
    for c in "Newx".chars() {
        app.handle_key(Key::Char(c));
    }
    app.handle_key(Key::Backspace);
    assert_eq!(app.input, "New");
    assert_eq!(app.handle_key(Key::Enter), KeyOutcome::Save);
    assert_eq!(app.tasks[3], task(5, "New", false, None));
    assert_eq!(app.selected, Some(3));
    assert_eq!(app.mode, AppMode::Normal);
    app.handle_key(Key::Char('t'));
    assert_eq!(app.mode, AppMode::SetDueDate(5));
    for c in "2025-02-30".chars() {
        app.handle_key(Key::Char(c));
    }
    assert_eq!(app.handle_key(Key::Enter), KeyOutcome::Redraw);
    assert_eq!(app.tasks[3].due_date, None);
    assert_eq!(app.mode, AppMode::Normal);
    assert_eq!(app.input, "");
    assert_eq!(app.message.as_deref(), Some("Invalid date format: 2025-02-30"));
    app.handle_key(Key::Esc);
    assert_eq!(app.mode, AppMode::Normal);
    assert_eq!(app.message, None);
    app.handle_key(Key::Char('e'));
    assert_eq!(app.mode, AppMode::Editing(5));
    assert_eq!(app.input, "New");
    app.handle_key(Key::Backspace);
    app.handle_key(Key::Backspace);
    app.handle_key(Key::Backspace);
    app.handle_key(Key::Char(' '));
    assert_eq!(app.handle_key(Key::Enter), KeyOutcome::Redraw);
    assert_eq!(app.tasks[3].text, "New");
    assert_eq!(app.message.as_deref(), Some("Task text cannot be empty!"));
    assert_eq!(app.mode, AppMode::Normal);
    assert_eq!(app.handle_key(Key::Char('d')), KeyOutcome::Save);
    assert_eq!(app.tasks.len(), 3);
    assert_eq!(app.selected, Some(2));
    assert_eq!(app.handle_key(Key::Char('q')), KeyOutcome::Quit);
    let mut empty = App::new(Vec::new());
    empty.handle_key(Key::Down);
    assert_eq!(empty.selected, None);
}

#[test]
fn month_groups_and_names() {
    assert_eq!(month_group(&Some("2025-11-08".to_string())), "2025-11");
    assert_eq!(month_group(&Some("2025".to_string())), "2025-00");
    assert_eq!(month_group(&Some("2025-1-5".to_string())), "2025-1");
    assert_eq!(month_group(&None), "0000-00");
    assert_eq!(month_name("11"), "Nov");
    assert_eq!(month_name("01"), "Jan");
    assert_eq!(month_name("13"), "???");
}

#[test]
fn clock_readings_give_dates() {
    assert_eq!(todo_cli::date::date_from_clock(None), day(2025, 11, 7));
    assert_eq!(todo_cli::date::date_from_clock(Some(0)), day(1970, 1, 1));
    assert_eq!(todo_cli::date::date_from_clock(Some(1_762_732_800)), day(2025, 11, 10));
    assert_eq!(todo_cli::date::date_from_clock(Some(u64::MAX)), day(2025, 11, 7));
}

#[test]
fn listing_orders() {
    let tasks = vec![
        task(3, "c", false, None),
        task(1, "a", true, Some("2025-12-01")),
        task(2, "b", false, Some("2025-11-08")),
        task(5, "e", false, None),
        task(4, "d", true, Some("2025-11-08")),
    ];
    let ids = |v: &Vec<Task>| v.iter().map(|t| t.id).collect::<Vec<_>>();
    assert_eq!(ids(&sort_for_listing(tasks.clone())), vec![2, 4, 1, 3, 5]);
    assert_eq!(ids(&pending_first(&tasks)), vec![3, 2, 5, 1, 4]);
    assert!(sort_for_listing(Vec::new()).is_empty());
}

#[test]
fn archive_needs_a_yes_and_older_tasks() {
    let kept = vec![task(1, "a", false, None)];
    let older = vec![task(2, "b", false, Some("2025-01-01"))];
    let r = confirm_archive("yes\n", kept.clone(), older.clone()).unwrap();
    assert_eq!(r, (kept.clone(), older.clone()));
    assert!(confirm_archive("n", kept.clone(), older).is_none());
    assert!(confirm_archive("y", kept, Vec::new()).is_none());
}

#[test]
fn rejections_name_their_reason() {
    let mut tasks = sample();
    match add_task(&mut tasks, " ".to_string(), day(2025, 11, 10), 0) {
        Err(TaskError::InvalidInput(m)) => assert_eq!(m, "Task text cannot be empty!"),
        _ => panic!("blank text is rejected"),
    }
    match edit_task(&mut tasks, 1, "a".repeat(501)) {
        Err(TaskError::InvalidInput(m)) => assert_eq!(m, "Task text is too long (max 500 characters)!"),
        _ => panic!("long text is rejected"),
    }
    match edit_task(&mut tasks, 77, "fine".to_string()) {
        Err(TaskError::InvalidInput(m)) => assert_eq!(m, "Task 77 not found"),
        _ => panic!("unknown id"),
    }
    match set_due_date(&mut tasks, 77, "2025-01-01".to_string()) {
        Err(TaskError::InvalidInput(m)) => assert_eq!(m, "Task 77 not found"),
        _ => panic!("unknown id"),
    }
    match set_due_date(&mut tasks, 0, "2025-01-01".to_string()) {
        Err(TaskError::InvalidInput(m)) => assert_eq!(m, "Task ID cannot be 0"),
        _ => panic!("id 0"),
    }
}

#[test]
fn offsets_outside_the_calendar_are_refused() {
    let mut tasks = sample();
    let before = tasks.clone();
    match add_task(&mut tasks, "x".to_string(), day(2025, 11, 10), 3_000_000) {
        Err(TaskError::InvalidInput(m)) => assert_eq!(m, "Due date out of range (years 1900 to 9999)"),
        _ => panic!("the due date would pass 9999"),
    }
    assert!(add_task(&mut tasks, "x".to_string(), day(1900, 1, 1), -1).is_err());
    assert_eq!(tasks, before);
    assert_eq!(todo_cli::commands::due_date_for(day(2025, 11, 10), 21).unwrap(), day(2025, 12, 1));
    assert!(add_task(&mut tasks, "x".to_string(), day(9999, 12, 30), 1).is_ok());
}

#[test]
fn listing_sort_keeps_ties_in_order() {
    let tasks = vec![
        task(7, "late", false, Some("2025-11-09")),
        task(2, "first tie", false, Some("2025-11-08")),
        task(9, "second tie", true, Some("2025-11-08")),
        task(1, "third tie", false, Some("2025-11-08")),
    ];
    let ids: Vec<u32> = sort_for_listing(tasks).iter().map(|t| t.id).collect();
    assert_eq!(ids, vec![2, 9, 1, 7]);
}

#[test]
fn query_is_checked_alone() {
    assert!(todo_cli::commands::check_query("milk").is_ok());
    match todo_cli::commands::check_query(&"q".repeat(101)) {
        Err(TaskError::InvalidInput(m)) => assert_eq!(m, "Search query is too long (max 100 characters)!"),
        _ => panic!("too long"),
    }
}
