//! Task tracking with verified storage rules: the task record and its JSON
//! form, calendar dates, the command operations, the recovery steps of the
//! task store and the state of the interactive view.

pub mod cli;
pub mod commands;
pub mod date;
pub mod json;
pub mod storage;
pub mod task;
pub mod text;
pub mod tui;

pub use cli::{Cli, Commands};
pub use commands::{
    add_task, add_to_removed_result, delete_task, edit_task, search, set_due_date, toggle_task,
    validate_task_id,
};
pub use date::{get_date_with_offset, get_today, validate_date, Date};
pub use json::{decode_tasks, encode_tasks, Json, JsonNumber};
pub use storage::{
    get_data_location, get_removed_file_path, get_todos_file_path, validate_json_file, FileRead,
    LoadEvent, LoadNote, LoadStep,
};
pub use task::{Task, TaskError};
pub use tui::{App, AppMode};
