use vstd::prelude::*;
use crate::date::{is_valid_date, validate_date};
use crate::text::{append_str, blank, char_count, is_blank, string_of_chars};

verus! {

#[verifier::external_type_specification]
#[verifier::external_body]
pub struct ExIoError(std::io::Error);

#[verifier::external_type_specification]
#[verifier::external_body]
pub struct ExJsonError(serde_json::Error);

/// What can go wrong in a task operation.
#[derive(Debug)]
pub enum TaskError {
    IoError(std::io::Error),
    JsonError(serde_json::Error),
    InvalidDate(String),
    InvalidInput(String),
}

impl From<std::io::Error> for TaskError {
    fn from(err: std::io::Error) -> (r: TaskError) {
        TaskError::IoError(err)
    }
}

impl vstd::std_specs::convert::FromSpecImpl<std::io::Error> for TaskError {
    open spec fn obeys_from_spec() -> bool {
        true
    }

    open spec fn from_spec(v: std::io::Error) -> TaskError {
        TaskError::IoError(v)
    }
}

impl From<serde_json::Error> for TaskError {
    fn from(err: serde_json::Error) -> (r: TaskError) {
        TaskError::JsonError(err)
    }
}

impl vstd::std_specs::convert::FromSpecImpl<serde_json::Error> for TaskError {
    open spec fn obeys_from_spec() -> bool {
        true
    }

    open spec fn from_spec(v: serde_json::Error) -> TaskError {
        TaskError::JsonError(v)
    }
}

/// Most characters a task's text may have.
pub const MAX_TEXT_CHARS: usize = 500;

/// One entry of the task list.
#[derive(Debug, Clone, PartialEq, Eq)]
pub struct Task {
    pub id: u32,
    pub text: String,
    pub done: bool,
    pub due_date: Option<String>,
}

/// A task as plain values.
pub struct TaskView {
    pub id: u32,
    pub text: Seq<char>,
    pub done: bool,
    pub due_date: Option<Seq<char>>,
}

pub open spec fn text_view(o: Option<String>) -> Option<Seq<char>> {
    match o {
        Some(s) => Some(s@),
        None => None,
    }
}

impl View for Task {
    type V = TaskView;

    open spec fn view(&self) -> TaskView {
        TaskView { id: self.id, text: self.text@, done: self.done, due_date: text_view(self.due_date) }
    }
}

/// The views of a list of tasks.
pub open spec fn tasks_view(v: Seq<Task>) -> Seq<TaskView> {
    v.map_values(|t: Task| t@)
}

/// A stored task's text: not empty, and at most `MAX_TEXT_CHARS` characters.
pub open spec fn is_stored_text(t: Seq<char>) -> bool {
    0 < t.len() <= MAX_TEXT_CHARS
}

/// A task as the store accepts it: its text is a stored text and its due
/// date, if any, is a valid date.
pub open spec fn is_valid_task(t: TaskView) -> bool {
    &&& is_stored_text(t.text)
    &&& (t.due_date matches Some(d) ==> is_valid_date(d))
}

/// Text that a user may give a task: not only white space, and at most
/// `MAX_TEXT_CHARS` characters.
pub open spec fn is_acceptable_text(t: Seq<char>) -> bool {
    !is_blank(t) && t.len() <= MAX_TEXT_CHARS
}

/// The digit characters of `n` in decimal, without leading zeros.
pub open spec fn decimal(n: nat) -> Seq<char>
    decreases n,
{
    if n < 10 {
        seq![crate::date::digit_char(n as int)]
    } else {
        decimal(n / 10).push(crate::date::digit_char((n % 10) as int))
    }
}

fn decimal_chars(n: u32) -> (r: Vec<char>)
    ensures
        r@ == decimal(n as nat),
    decreases n,
{
    if n < 10 {
        let mut v = Vec::new();
        v.push(((n as u8) + 48u8) as char);
        v
    } else {
        let mut v = decimal_chars(n / 10);
        v.push(((n % 10) as u8 + 48u8) as char);
        v
    }
}

/// `n` written in decimal.
pub fn decimal_text(n: u32) -> (r: String)
    ensures
        r@ == decimal(n as nat),
{
    string_of_chars(&decimal_chars(n))
}

/// `"Task <id>"` followed by `rest`.
pub fn task_message(id: u32, rest: &str) -> (r: String)
    ensures
        r@ == "Task "@ + decimal(id as nat) + rest@,
{
    let mut m = String::new();
    append_str(&mut m, "Task ");
    append_str(&mut m, decimal_text(id).as_str());
    append_str(&mut m, rest);
    assert(m@ =~= "Task "@ + decimal(id as nat) + rest@);
    m
}

/// Checks one task as the store accepts it.
pub fn validate_task(t: &Task) -> (r: Result<(), TaskError>)
    ensures
        r is Ok <==> is_valid_task(t@),
        r matches Err(e) ==> (e is InvalidInput && !is_stored_text(t@.text)) || (e matches TaskError::InvalidDate(d)
            && t@.due_date == Some(d@)),
{
    let n = char_count(t.text.as_str());
    if n == 0 {
        return Err(TaskError::InvalidInput(task_message(t.id, " has empty text")));
    }
    if n > MAX_TEXT_CHARS {
        return Err(TaskError::InvalidInput(task_message(t.id, " text too long")));
    }
    match &t.due_date {
        Some(d) => validate_date(d.as_str()),
        None => Ok(()),
    }
}

/// Checks every task of a list as the store accepts it.
pub fn validate_tasks(tasks: &Vec<Task>) -> (r: Result<(), TaskError>)
    ensures
        r is Ok <==> forall|i: int| 0 <= i < tasks@.len() ==> is_valid_task(#[trigger] tasks@[i]@),
{
    let mut i: usize = 0;
    while i < tasks.len()
        invariant
            i <= tasks.len(),
            forall|k: int| 0 <= k < i ==> is_valid_task(#[trigger] tasks@[k]@),
        decreases tasks.len() - i,
    {
        match validate_task(&tasks[i]) {
            Ok(()) => {},
            Err(e) => {
                return Err(e);
            },
        }
        i = i + 1;
    }
    Ok(())
}

/// Why a user's text is refused: it is blank, or too long.
pub open spec fn text_problem(t: Seq<char>) -> Seq<char> {
    if is_blank(t) {
        "Task text cannot be empty!"@
    } else {
        "Task text is too long (max 500 characters)!"@
    }
}

/// Checks text that a user gives a task.
pub fn check_task_text(text: &str) -> (r: Result<(), TaskError>)
    ensures
        r is Ok <==> is_acceptable_text(text@),
        r matches Err(e) ==> (e matches TaskError::InvalidInput(m) && m@ == text_problem(text@)),
{
    if blank(text) {
        return Err(TaskError::InvalidInput(String::from_str("Task text cannot be empty!")));
    }
    if char_count(text) > MAX_TEXT_CHARS {
        return Err(TaskError::InvalidInput(String::from_str("Task text is too long (max 500 characters)!")));
    }
    Ok(())
}

impl Task {
    /// A task with the same fields as this one.
    pub fn duplicate(&self) -> (r: Task)
        ensures
            r@ == self@,
    {
        Task {
            id: self.id,
            text: self.text.clone(),
            done: self.done,
            due_date: match &self.due_date {
                Some(d) => Some(d.clone()),
                None => None,
            },
        }
    }
}

impl TaskError {
    /// The text shown to the user for this error.
    pub fn message(&self) -> (r: String)
        ensures
            self matches TaskError::InvalidDate(d) ==> r@ == "Invalid date format: "@ + d@,
            self matches TaskError::InvalidInput(m) ==> r@ == "Invalid input: "@ + m@,
    {
        let mut out = String::new();
        match self {
            TaskError::IoError(e) => {
                append_str(&mut out, "File operation failed: ");
                append_str(&mut out, e.to_string().as_str());
            },
            TaskError::JsonError(e) => {
                append_str(&mut out, "JSON operation failed: ");
                append_str(&mut out, e.to_string().as_str());
            },
            TaskError::InvalidDate(d) => {
                append_str(&mut out, "Invalid date format: ");
                append_str(&mut out, d.as_str());
            },
            TaskError::InvalidInput(m) => {
                append_str(&mut out, "Invalid input: ");
                append_str(&mut out, m.as_str());
            },
        }
        out
    }
}

} // verus!
