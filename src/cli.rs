use vstd::prelude::*;

verus! {

/// The command line: one command.
pub struct Cli {
    pub command: Commands,
}

/// The commands of the command line.
pub enum Commands {
    /// Add a new task, due `days` days from today.
    Add { text: String, days: i32 },
    /// Show the tasks: all of them, today's, or the pending ones.
    List { all: bool, today: bool },
    /// Toggle a task's completion.
    Done { id: u32 },
    /// Delete a task.
    Delete { id: u32 },
    /// Archive the tasks due more than `days` days ago.
    Remove { days: i32 },
    /// Show the archived tasks.
    Removed,
    /// Replace a task's text.
    Edit { id: u32, text: String },
    /// Set a task's due date.
    Due { id: u32, date: String },
    /// Show the task data.
    Sync,
    /// Celebrate.
    Party,
    /// Search the tasks' texts.
    Search { query: String },
    /// Start the interactive view.
    Tui,
    /// Show where the tasks are stored.
    Info,
    /// Put the backup in place of the task file.
    Restore,
}

} // verus!
