use todo_cli::date::{date_of_day_number, date_of_unix_seconds, day_number_of, format_date, offset_date};
use todo_cli::json::{decode_task, encode_task};
use todo_cli::storage::backup_path;
use todo_cli::{get_date_with_offset, get_today, validate_date, Date, Json, JsonNumber, Task, TaskError};

fn member<'a>(j: &'a Json, key: &str) -> Option<&'a Json> {
    match j {
        Json::Object(ms) => ms.iter().find(|(k, _)| k == key).map(|(_, v)| v),
        _ => None,
    }
}

#[test]
fn test_task_creation() {
    let task = Task {
        id: 1,
        text: "Test task".to_string(),
        done: false,
        due_date: Some("2025-11-08".to_string()),
    };

    assert_eq!(task.id, 1);
    assert_eq!(task.text, "Test task");
    assert!(!task.done);
    assert_eq!(task.due_date, Some("2025-11-08".to_string()));
}

#[test]
fn test_validate_date_valid() {
    assert!(validate_date("2025-11-08").is_ok());
    assert!(validate_date("2024-02-29").is_ok());
    assert!(validate_date("2023-02-28").is_ok());
    assert!(validate_date("2025-12-31").is_ok());
    assert!(validate_date("2000-01-01").is_ok());
}

#[test]
fn test_validate_date_invalid_format() {
    assert!(validate_date("").is_err());
    assert!(validate_date("2025/11/08").is_err());
    assert!(validate_date("2025-11").is_err());
    assert!(validate_date("11-08-2025").is_err());
    assert!(validate_date("not-a-date").is_err());
}

#[test]
fn test_validate_date_invalid_values() {
    assert!(validate_date("2025-13-08").is_err());
    assert!(validate_date("2025-00-08").is_err());
    assert!(validate_date("2025-11-00").is_err());
    assert!(validate_date("2025-11-32").is_err());
    assert!(validate_date("2023-02-29").is_err());
    assert!(validate_date("2025-04-31").is_err());
    assert!(validate_date("1899-01-01").is_err());
    assert!(validate_date("10000-01-01").is_err());
}

#[test]
fn test_validate_date_leap_year() {
    assert!(validate_date("2024-02-29").is_ok());
    assert!(validate_date("2023-02-29").is_err());
    assert!(validate_date("2000-02-29").is_ok());
    assert!(validate_date("1900-02-29").is_err());
}

#[test]
fn test_get_today() {
    let today = get_today();
    assert!(validate_date(&today).is_ok());
    assert_eq!(today.len(), 10);
    assert_eq!(today.chars().nth(4).unwrap(), '-');
    assert_eq!(today.chars().nth(7).unwrap(), '-');
}

#[test]
fn test_task_json_serialization() {
    let task = Task {
        id: 1,
        text: "Test task".to_string(),
        done: false,
        due_date: Some("2025-11-08".to_string()),
    };

    let json = encode_task(&task);
    assert!(matches!(member(&json, "id"), Some(Json::Number(JsonNumber::PosInt(1)))));
    assert!(matches!(member(&json, "text"), Some(Json::Str(s)) if s == "Test task"));
    assert!(matches!(member(&json, "done"), Some(Json::Bool(false))));
    assert!(matches!(member(&json, "due_date"), Some(Json::Str(s)) if s == "2025-11-08"));

    let deserialized = decode_task(&json).unwrap();
    assert_eq!(deserialized.id, task.id);
    assert_eq!(deserialized.text, task.text);
    assert_eq!(deserialized.done, task.done);
    assert_eq!(deserialized.due_date, task.due_date);
}

#[test]
fn test_task_without_due_date() {
    let task = Task {
        id: 1,
        text: "Test task".to_string(),
        done: false,
        due_date: None,
    };

    let json = encode_task(&task);
    assert!(member(&json, "due_date").is_none());

    let deserialized = decode_task(&json).unwrap();
    assert_eq!(deserialized.due_date, None);
}

#[test]
fn test_error_display() {
    let err = TaskError::InvalidDate("bad date".to_string());
    assert_eq!(err.message(), "Invalid date format: bad date");

    let err = TaskError::InvalidInput("bad input".to_string());
    assert_eq!(err.message(), "Invalid input: bad input");
}

#[test]
fn test_get_date_with_offset() {
    let today = get_today();
    let tomorrow = get_date_with_offset(1);
    let yesterday = get_date_with_offset(-1);

    assert!(validate_date(&today).is_ok());
    assert!(validate_date(&tomorrow).is_ok());
    assert!(validate_date(&yesterday).is_ok());

    assert_ne!(today, tomorrow);
    assert_ne!(today, yesterday);
    assert_ne!(tomorrow, yesterday);
}

#[test]
fn test_backup_creation() {
    let test_file = "/tmp/test_todos.json";
    assert_eq!(backup_path(test_file), "/tmp/test_todos.json.backup");
}

#[test]
fn offset_crosses_month_year_and_leap_day() {
    let d = |year, month, day| Date { year, month, day };
    assert_eq!(offset_date(d(2024, 2, 28), 1), Some(d(2024, 2, 29)));
    assert_eq!(offset_date(d(2023, 2, 28), 1), Some(d(2023, 3, 1)));
    assert_eq!(offset_date(d(2023, 12, 31), 1), Some(d(2024, 1, 1)));
    assert_eq!(offset_date(d(2025, 11, 10), -1), Some(d(2025, 11, 9)));
    assert_eq!(offset_date(d(2000, 3, 1), -1), Some(d(2000, 2, 29)));
    assert_eq!(offset_date(d(1900, 3, 1), -1), Some(d(1900, 2, 28)));
    assert_eq!(offset_date(d(2025, 1, 1), 365), Some(d(2026, 1, 1)));
    assert_eq!(offset_date(d(1900, 1, 1), -1), None);
    assert_eq!(offset_date(d(9999, 12, 31), 1), None);
}

#[test]
fn day_numbers_of_known_days() {
    assert_eq!(day_number_of(Date { year: 1900, month: 1, day: 1 }), 693595);
    assert_eq!(day_number_of(Date { year: 1970, month: 1, day: 1 }), 719162);
    assert_eq!(day_number_of(Date { year: 9999, month: 12, day: 31 }), 3652058);
    assert_eq!(date_of_day_number(719162), Date { year: 1970, month: 1, day: 1 });
    assert_eq!(date_of_day_number(3652058), Date { year: 9999, month: 12, day: 31 });
}

#[test]
fn unix_seconds_give_calendar_days() {
    assert_eq!(date_of_unix_seconds(0), Some(Date { year: 1970, month: 1, day: 1 }));
    assert_eq!(date_of_unix_seconds(86399), Some(Date { year: 1970, month: 1, day: 1 }));
    assert_eq!(date_of_unix_seconds(1_700_000_000), Some(Date { year: 2023, month: 11, day: 14 }));
    assert_eq!(date_of_unix_seconds(951_782_400), Some(Date { year: 2000, month: 2, day: 29 }));
    assert_eq!(date_of_unix_seconds(u64::MAX), None);
}

#[test]
fn dates_are_written_zero_padded() {
    assert_eq!(format_date(Date { year: 2025, month: 1, day: 5 }), "2025-01-05");
    assert_eq!(format_date(Date { year: 1900, month: 12, day: 31 }), "1900-12-31");
}

#[test]
fn date_fields_are_digits_only() {
    assert!(validate_date("2025-1-5").is_ok());
    assert!(validate_date("+2025-01-05").is_err());
    assert!(validate_date("2025-+1-05").is_err());
    assert!(validate_date("2025-01-05-").is_err());
    assert!(validate_date("2025--01").is_err());
    assert!(validate_date("2025-0x-01").is_err());
    assert!(validate_date("２０２５-01-01").is_err());
    match validate_date("2025/01/01") {
        Err(TaskError::InvalidDate(d)) => assert_eq!(d, "2025/01/01"),
        _ => panic!("expected an invalid date"),
    }
}
