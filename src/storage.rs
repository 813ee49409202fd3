use vstd::prelude::*;
use crate::json::{Json, decode_tasks, tasks_of_json};
use crate::task::{Task, TaskError, TaskView, is_valid_task, tasks_view, validate_tasks};
use crate::text::append_str;

verus! {

/// `name` placed in the directory `dir`.
pub open spec fn in_dir(dir: Seq<char>, name: Seq<char>) -> Seq<char> {
    if dir.len() == 0 {
        name
    } else if dir.last() == '/' {
        dir + name
    } else {
        dir + seq!['/'] + name
    }
}

/// The path of `name` in the directory `dir`.
pub fn join_path(dir: &str, name: &str) -> (r: String)
    ensures
        r@ == in_dir(dir@, name@),
{
    let mut out = String::from_str(dir);
    let v = crate::text::chars_of(dir);
    if v.len() > 0 && v[v.len() - 1] != '/' {
        append_str(&mut out, "/");
        proof {
            reveal_strlit("/");
        }
    }
    append_str(&mut out, name);
    proof {
        if dir@.len() > 0 && dir@.last() != '/' {
            assert(out@ =~= dir@ + seq!['/'] + name@);
        }
    }
    out
}

/// The directory of the task files: `.todo` in the home directory, which
/// `home` names, or else `profile` (the user profile directory).
pub fn get_todo_dir(home: Option<String>, profile: Option<String>) -> (r: Result<String, TaskError>)
    ensures
        home matches Some(h) ==> (r matches Ok(d) && d@ == in_dir(h@, ".todo"@)),
        home is None ==> match profile {
            Some(p) => r matches Ok(d) && d@ == in_dir(p@, ".todo"@),
            None => r matches Err(e) && e matches TaskError::InvalidInput(m) && m@
                == "Could not find home directory"@,
        },
{
    match home {
        Some(h) => Ok(join_path(h.as_str(), ".todo")),
        None => match profile {
            Some(p) => Ok(join_path(p.as_str(), ".todo")),
            None => Err(TaskError::InvalidInput(String::from_str("Could not find home directory"))),
        },
    }
}

/// The file of the active tasks in the directory `dir`.
pub fn get_todos_file_path(dir: &str) -> (r: String)
    ensures
        r@ == in_dir(dir@, "todos.json"@),
{
    join_path(dir, "todos.json")
}

/// The file of the removed tasks in the directory `dir`.
pub fn get_removed_file_path(dir: &str) -> (r: String)
    ensures
        r@ == in_dir(dir@, "removed.json"@),
{
    join_path(dir, "removed.json")
}

/// The backup that sits beside a task file.
pub fn backup_path(file: &str) -> (r: String)
    ensures
        r@ == file@ + ".backup"@,
{
    let mut out = String::from_str(file);
    append_str(&mut out, ".backup");
    out
}

/// The location of the task file for display, or a note that it is unknown.
pub fn get_data_location(file: &Result<String, TaskError>) -> (r: String)
    ensures
        file matches Ok(p) ==> r@ == p@,
        file is Err ==> r@ == "Error: Could not determine data location"@,
{
    match file {
        Ok(p) => p.clone(),
        Err(_) => String::from_str("Error: Could not determine data location"),
    }
}

/// What reading one task file found.
#[derive(Debug)]
pub enum FileRead {
    /// There is no such file.
    Missing,
    /// The file could not be read, or is not JSON.
    Failed(TaskError),
    /// The file holds nothing but white space.
    Blank,
    /// The JSON document that the file holds.
    Parsed(Json),
}

/// The task list that a file holds, if the store accepts it: a blank file
/// holds none, a JSON document holds a list of valid tasks.
pub open spec fn file_tasks(read: FileRead) -> Option<Seq<TaskView>> {
    match read {
        FileRead::Blank => Some(Seq::empty()),
        FileRead::Parsed(j) => match tasks_of_json(j) {
            Some(ts) => if forall|i: int| 0 <= i < ts.len() ==> is_valid_task(#[trigger] ts[i]) {
                Some(ts)
            } else {
                None
            },
            None => None,
        },
        _ => None,
    }
}

/// The tasks of a file that was read, checked as the store accepts them.
pub fn validate_json_file(read: FileRead) -> (r: Result<Vec<Task>, TaskError>)
    ensures
        r is Ok <==> file_tasks(read) is Some,
        r matches Ok(ts) ==> file_tasks(read) == Some(tasks_view(ts@)),
{
    match read {
        FileRead::Blank => Ok(Vec::new()),
        FileRead::Parsed(j) => {
            let ts = match decode_tasks(&j) {
                Ok(ts) => ts,
                Err(e) => {
                    return Err(e);
                },
            };
            match validate_tasks(&ts) {
                Ok(()) => {
                    assert(forall|i: int| 0 <= i < ts@.len() ==> #[trigger] tasks_view(ts@)[i] == ts@[i]@);
                    Ok(ts)
                },
                Err(e) => {
                    proof {
                        let v = tasks_view(ts@);
                        if forall|i: int| 0 <= i < v.len() ==> is_valid_task(#[trigger] v[i]) {
                            assert forall|i: int| 0 <= i < ts@.len() implies is_valid_task(#[trigger] ts@[i]@) by {
                                assert(v[i] == ts@[i]@);
                            }
                        }
                    }
                    Err(e)
                },
            }
        },
        FileRead::Missing => Err(TaskError::InvalidInput(String::from_str("the task file does not exist"))),
        FileRead::Failed(e) => Err(e),
    }
}

/// How loading a task file ended, for the diagnostic channel.
#[derive(Debug, Clone, Copy, PartialEq, Eq, Structural)]
pub enum LoadNote {
    /// The file was read as it stood (or did not exist).
    Loaded,
    /// The file was broken and its backup was put in its place.
    Restored,
    /// The file was broken and so was its backup: the list starts empty.
    BackupCorrupted,
    /// The file was broken and had no backup to restore: the list starts empty.
    NoBackup,
}

/// Where loading a task file stands, and what it asks for next.
#[derive(Debug)]
pub enum LoadStep {
    /// Read the task file and report what was found.
    ReadPrimary,
    /// Copy the backup over the task file, if there is a backup, and report
    /// whether that happened.
    RestoreBackup,
    /// Read the task file again, now that the backup stands in its place.
    ReadRestored,
    /// Loading is done; the task list it gives, and how it went.
    Finished(Vec<Task>, LoadNote),
}

/// What the caller found while doing the last step.
#[derive(Debug)]
pub enum LoadEvent {
    /// What reading the task file found.
    Read(FileRead),
    /// Whether the backup was copied over the task file.
    BackupCopied(bool),
}

/// `step` is `Finished` with a task list whose views are `ts`, and `note`.
pub open spec fn finished_with(step: LoadStep, ts: Seq<TaskView>, note: LoadNote) -> bool {
    match step {
        LoadStep::Finished(v, n) => tasks_view(v@) == ts && n == note,
        _ => false,
    }
}

/// The step after `step` once `event` was seen: a broken task file is
/// replaced by its backup and read again; a broken backup, or none, leaves
/// an empty list. An event that does not answer the step leaves it as it is.
pub fn load_step(step: LoadStep, event: LoadEvent) -> (r: LoadStep)
    ensures
        match (step, event) {
            (LoadStep::ReadPrimary, LoadEvent::Read(FileRead::Missing)) => finished_with(
                r,
                Seq::empty(),
                LoadNote::Loaded,
            ),
            (LoadStep::ReadPrimary, LoadEvent::Read(f)) => match file_tasks(f) {
                Some(ts) => f !is Missing ==> finished_with(r, ts, LoadNote::Loaded),
                None => f !is Missing ==> r is RestoreBackup,
            },
            (LoadStep::RestoreBackup, LoadEvent::BackupCopied(true)) => r is ReadRestored,
            (LoadStep::RestoreBackup, LoadEvent::BackupCopied(false)) => finished_with(
                r,
                Seq::empty(),
                LoadNote::NoBackup,
            ),
            (LoadStep::ReadRestored, LoadEvent::Read(f)) => match file_tasks(f) {
                Some(ts) => finished_with(r, ts, LoadNote::Restored),
                None => finished_with(r, Seq::empty(), LoadNote::BackupCorrupted),
            },
            (s, _) => r == s,
        },
{
    let none: Vec<Task> = Vec::new();
    assert(tasks_view(none@) =~= Seq::<TaskView>::empty());
    match (step, event) {
        (LoadStep::ReadPrimary, LoadEvent::Read(FileRead::Missing)) => LoadStep::Finished(none, LoadNote::Loaded),
        (LoadStep::ReadPrimary, LoadEvent::Read(f)) => match validate_json_file(f) {
            Ok(ts) => LoadStep::Finished(ts, LoadNote::Loaded),
            Err(_) => LoadStep::RestoreBackup,
        },
        (LoadStep::RestoreBackup, LoadEvent::BackupCopied(true)) => LoadStep::ReadRestored,
        (LoadStep::RestoreBackup, LoadEvent::BackupCopied(false)) => LoadStep::Finished(none, LoadNote::NoBackup),
        (LoadStep::ReadRestored, LoadEvent::Read(f)) => match validate_json_file(f) {
            Ok(ts) => LoadStep::Finished(ts, LoadNote::Restored),
            Err(_) => LoadStep::Finished(none, LoadNote::BackupCorrupted),
        },
        (s, _) => s,
    }
}

/// Where saving a task list stands, and what it asks for next.
#[derive(Debug)]
pub enum SaveStep {
    /// Report whether the task file exists.
    CheckFile,
    /// Copy the task file to its backup and report how that went.
    MakeBackup,
    /// Write the task list as JSON text, read that text back, and report the
    /// document read (or why it could not be read).
    Encode,
    /// Write the checked text to the task file and report how that went.
    WriteFile,
    /// Saving is done, with its outcome.
    Done(Result<(), TaskError>),
}

/// What the caller found while doing the last step of a save.
#[derive(Debug)]
pub enum SaveEvent {
    FileExists(bool),
    BackupMade(Result<(), TaskError>),
    ReadBack(Result<Json, TaskError>),
    Written(Result<(), TaskError>),
}

/// The step after `step` once `event` was seen: an existing task file is
/// copied to its backup before anything is written, the text to write must
/// read back as a task list, and the first failure ends the save with its
/// error. An event that does not answer the step leaves it as it is.
pub fn save_step(step: SaveStep, event: SaveEvent) -> (r: SaveStep)
    ensures
        save_next(step, event, r),
{
    match (step, event) {
        (SaveStep::CheckFile, SaveEvent::FileExists(true)) => SaveStep::MakeBackup,
        (SaveStep::CheckFile, SaveEvent::FileExists(false)) => SaveStep::Encode,
        (SaveStep::MakeBackup, SaveEvent::BackupMade(Ok(()))) => SaveStep::Encode,
        (SaveStep::MakeBackup, SaveEvent::BackupMade(Err(e))) => SaveStep::Done(Err(e)),
        (SaveStep::Encode, SaveEvent::ReadBack(Ok(j))) => match decode_tasks(&j) {
            Ok(_) => SaveStep::WriteFile,
            Err(e) => SaveStep::Done(Err(e)),
        },
        (SaveStep::Encode, SaveEvent::ReadBack(Err(e))) => SaveStep::Done(Err(e)),
        (SaveStep::WriteFile, SaveEvent::Written(w)) => SaveStep::Done(w),
        (s, _) => s,
    }
}

/// The step a save takes after `step` on `event`.
pub open spec fn save_next(step: SaveStep, event: SaveEvent, r: SaveStep) -> bool {
    match (step, event) {
        (SaveStep::CheckFile, SaveEvent::FileExists(true)) => r is MakeBackup,
        (SaveStep::CheckFile, SaveEvent::FileExists(false)) => r is Encode,
        (SaveStep::MakeBackup, SaveEvent::BackupMade(Ok(()))) => r is Encode,
        (SaveStep::MakeBackup, SaveEvent::BackupMade(Err(e))) => r == SaveStep::Done(Err(e)),
        (SaveStep::Encode, SaveEvent::ReadBack(Ok(j))) => if tasks_of_json(j) is Some {
            r is WriteFile
        } else {
            r matches SaveStep::Done(Err(e)) && e is InvalidInput
        },
        (SaveStep::Encode, SaveEvent::ReadBack(Err(e))) => r == SaveStep::Done(Err(e)),
        (SaveStep::WriteFile, SaveEvent::Written(w)) => r == SaveStep::Done(w),
        (s, _) => r == s,
    }
}

/// The event reports text that read back as a task list.
pub open spec fn reads_back_tasks(event: SaveEvent) -> bool {
    match event {
        SaveEvent::ReadBack(Ok(j)) => tasks_of_json(j) is Some,
        _ => false,
    }
}

/// The event reports a missing task file, or a backup that was made.
pub open spec fn no_file_or_backup_made(event: SaveEvent) -> bool {
    match event {
        SaveEvent::FileExists(false) => true,
        SaveEvent::BackupMade(Ok(_)) => true,
        _ => false,
    }
}

/// A save writes the task file only after it has learned whether the file
/// exists, made the backup when it does, and read back the text to write:
/// the step that asks for the write is reached only from `Encode`, and
/// `Encode` only from a missing file or a backup that was made.
pub proof fn lemma_backup_before_write(step: SaveStep, event: SaveEvent, r: SaveStep)
    requires
        save_next(step, event, r),
    ensures
        r is WriteFile ==> step is WriteFile || (step is Encode && reads_back_tasks(event)),
        r is Encode ==> step is Encode || no_file_or_backup_made(event),
{
}

} // verus!
