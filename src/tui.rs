use vstd::prelude::*;
use crate::commands::{highest_id, is_first_with_id, lemma_first_with_id_unique, max_id};
use crate::date::{is_valid_date, validate_date};
use crate::task::{Task, TaskError, check_task_text, decimal, is_acceptable_text, task_message, text_problem};
use crate::text::{append_str, push_char};

verus! {

/// What the interactive view is doing with its input line.
#[derive(Debug, Clone, Copy, PartialEq, Eq, Structural)]
pub enum AppMode {
    Normal,
    Adding,
    Editing(u32),
    SetDueDate(u32),
}

/// State of the interactive view: the task list, the selected row, the mode,
/// the input line and the last message.
pub struct App {
    pub tasks: Vec<Task>,
    pub selected: Option<usize>,
    pub mode: AppMode,
    pub input: String,
    pub message: Option<String>,
}

/// The row selected after moving down: the next row, wrapping to the top.
pub open spec fn row_below(selected: Option<usize>, len: nat) -> Option<usize> {
    if len == 0 {
        None
    } else {
        match selected {
            Some(i) => if i + 1 >= len {
                Some(0)
            } else {
                Some((i + 1) as usize)
            },
            None => Some(0),
        }
    }
}

/// The row selected after moving up: the row above, wrapping to the bottom.
pub open spec fn row_above(selected: Option<usize>, len: nat) -> Option<usize> {
    if len == 0 {
        None
    } else {
        match selected {
            Some(i) => if i == 0 {
                Some((len - 1) as usize)
            } else {
                Some((i - 1) as usize)
            },
            None => Some(0),
        }
    }
}

/// A key as the interactive view reads it.
#[derive(Debug, Clone, Copy, PartialEq, Eq, Structural)]
pub enum Key {
    Char(char),
    Enter,
    Esc,
    Backspace,
    Up,
    Down,
    Other,
}

/// What the caller does after a key was handled.
#[derive(Debug, Clone, Copy, PartialEq, Eq, Structural)]
pub enum KeyOutcome {
    /// Leave the interactive view.
    Quit,
    /// The task list changed: save it, then draw again.
    Save,
    /// Draw again.
    Redraw,
}

/// Relies on `String::pop`: it removes the last character, if any.
#[verifier::external_body]
fn pop_char(s: &mut String)
    ensures
        final(s)@ == if old(s)@.len() > 0 {
            old(s)@.drop_last()
        } else {
            old(s)@
        },
{
    s.pop();
}

/// The message `"<before><n><after>"`.
pub open spec fn message_with(before: Seq<char>, n: u32, after: Seq<char>) -> Seq<char> {
    before + decimal(n as nat) + after
}

fn position_of(tasks: &Vec<Task>, id: u32) -> (r: Option<usize>)
    ensures
        r matches Some(i) ==> is_first_with_id(tasks@, id, i as int),
        r is None ==> forall|k: int| 0 <= k < tasks@.len() ==> (#[trigger] tasks@[k]).id != id,
{
    let mut i: usize = 0;
    while i < tasks.len()
        invariant
            i <= tasks.len(),
            forall|k: int| 0 <= k < i ==> (#[trigger] tasks@[k]).id != id,
        decreases tasks.len() - i,
    {
        if tasks[i].id == id {
            return Some(i);
        }
        i = i + 1;
    }
    None
}

/// The selected row, when it names a task.
pub open spec fn selected_row(a: App) -> Option<usize> {
    match a.selected {
        Some(i) => if i < a.tasks@.len() {
            Some(i)
        } else {
            None
        },
        None => None,
    }
}

/// `b` is `a` with the selection set to `sel` and nothing else changed.
pub open spec fn moved(a: App, b: App, sel: Option<usize>) -> bool {
    &&& b.tasks == a.tasks
    &&& b.mode == a.mode
    &&& b.input == a.input
    &&& b.message == a.message
    &&& b.selected == sel
}

/// `b` is `a` after toggling the selected task; `changed` tells whether a
/// task was toggled.
pub open spec fn toggled(a: App, b: App, changed: bool) -> bool {
    &&& b.selected == a.selected
    &&& b.mode == a.mode
    &&& b.input == a.input
    &&& changed == selected_row(a) is Some
    &&& match selected_row(a) {
        Some(i) => {
            &&& b.tasks@ == a.tasks@.update(
                i as int,
                Task { done: !a.tasks@[i as int].done, ..a.tasks@[i as int] },
            )
            &&& b.message matches Some(m) && m@ == message_with(
                "Task "@,
                a.tasks@[i as int].id,
                " completed!"@,
            )
        },
        None => b.tasks == a.tasks && b.message == a.message,
    }
}

/// `b` is `a` after deleting the selected task; `changed` tells whether a
/// task was deleted.
pub open spec fn deleted(a: App, b: App, changed: bool) -> bool {
    &&& b.mode == a.mode
    &&& b.input == a.input
    &&& changed == selected_row(a) is Some
    &&& match selected_row(a) {
        Some(i) => {
            &&& b.tasks@ == a.tasks@.remove(i as int)
            &&& b.message matches Some(m) && m@ == message_with(
                "Task "@,
                a.tasks@[i as int].id,
                " deleted!"@,
            )
            &&& b.selected == if b.tasks@.len() == 0 {
                None::<usize>
            } else if i >= b.tasks@.len() {
                Some((b.tasks@.len() - 1) as usize)
            } else {
                Some(i)
            }
        },
        None => b.tasks == a.tasks && b.message == a.message && b.selected == a.selected,
    }
}

/// The input line is cleared and the view is back in normal mode.
pub open spec fn input_closed(b: App) -> bool {
    b.mode == AppMode::Normal && b.input@.len() == 0
}

/// `b` is `a` after committing the input line as a new task, without a due
/// date, under the next id. Empty input changes nothing; any other input
/// closes the input line, and rejected text leaves the reason as the message.
pub open spec fn added(a: App, b: App, changed: bool) -> bool {
    &&& changed == (a.input@.len() > 0 && is_acceptable_text(a.input@) && max_id(a.tasks@) < u32::MAX)
    &&& a.input@.len() == 0 ==> b == a
    &&& a.input@.len() > 0 ==> input_closed(b)
    &&& a.input@.len() > 0 && !changed ==> {
        &&& b.tasks == a.tasks
        &&& b.selected == a.selected
        &&& b.message matches Some(m) && m@ == if is_acceptable_text(a.input@) {
            "No task id is left"@
        } else {
            text_problem(a.input@)
        }
    }
    &&& changed ==> {
        let id = (max_id(a.tasks@) + 1) as u32;
        &&& b.tasks@ == a.tasks@.push(Task { id, text: a.input, done: false, due_date: None })
        &&& b.message matches Some(m) && m@ == message_with("Task "@, id, " added!"@)
        &&& b.selected == Some((b.tasks@.len() - 1) as usize)
    }
}

/// `b` is `a` after committing the input line as the new text of the task
/// with id `id`. Empty input changes nothing; any other input closes the
/// input line, and rejected text leaves the reason as the message.
pub open spec fn edited(a: App, b: App, id: u32, changed: bool) -> bool {
    &&& b.selected == a.selected
    &&& changed == (a.input@.len() > 0 && is_acceptable_text(a.input@) && exists|i: int|
        is_first_with_id(a.tasks@, id, i))
    &&& a.input@.len() == 0 ==> b == a
    &&& a.input@.len() > 0 ==> input_closed(b)
    &&& !changed ==> b.tasks == a.tasks
    &&& a.input@.len() > 0 && !is_acceptable_text(a.input@) ==> (b.message matches Some(m) && m@
        == text_problem(a.input@))
    &&& a.input@.len() > 0 && is_acceptable_text(a.input@) && !changed ==> b.message == a.message
    &&& forall|i: int|
        #![trigger is_first_with_id(a.tasks@, id, i)]
        changed && is_first_with_id(a.tasks@, id, i) ==> {
            &&& b.tasks@ == a.tasks@.update(i, Task { text: a.input, ..a.tasks@[i] })
            &&& b.message matches Some(m) && m@ == message_with("Task "@, id, " updated!"@)
        }
}

/// `b` is `a` after committing the input line as the due date of the task
/// with id `id`, once it passes date validation. Empty input changes
/// nothing; any other input closes the input line, and a rejected date
/// leaves the reason as the message.
pub open spec fn dated(a: App, b: App, id: u32, changed: bool) -> bool {
    &&& b.selected == a.selected
    &&& changed == (a.input@.len() > 0 && is_valid_date(a.input@) && exists|i: int|
        is_first_with_id(a.tasks@, id, i))
    &&& a.input@.len() == 0 ==> b == a
    &&& a.input@.len() > 0 ==> input_closed(b)
    &&& !changed ==> b.tasks == a.tasks
    &&& a.input@.len() > 0 && !is_valid_date(a.input@) ==> (b.message matches Some(m) && m@
        == "Invalid date format: "@ + a.input@)
    &&& a.input@.len() > 0 && is_valid_date(a.input@) && !changed ==> b.message == a.message
    &&& forall|i: int|
        #![trigger is_first_with_id(a.tasks@, id, i)]
        changed && is_first_with_id(a.tasks@, id, i) ==> {
            &&& b.tasks@ == a.tasks@.update(i, Task { due_date: Some(a.input), ..a.tasks@[i] })
            &&& b.message matches Some(m) && m@ == "Due date "@ + a.input@ + " set!"@
        }
}

/// `b` is `a` with input mode left: the input line and message cleared.
pub open spec fn cancelled(a: App, b: App) -> bool {
    &&& b.tasks == a.tasks
    &&& b.selected == a.selected
    &&& input_closed(b)
    &&& b.message is None
}

/// `b` is `a` after starting input mode `mode` with the input line `input`
/// and the hint `hint`.
pub open spec fn started(a: App, b: App, mode: AppMode, input: Seq<char>, hint: Seq<char>) -> bool {
    &&& b.tasks == a.tasks
    &&& b.selected == a.selected
    &&& b.mode == mode
    &&& b.input@ == input
    &&& b.message matches Some(m) && m@ == hint
}

/// A key in normal mode: `q` quits, `j`/Down and `k`/Up move, space/Enter
/// toggles, `d` deletes, `a` starts adding, `e` editing and `t` setting a
/// due date of the selected task, Esc clears; any other key does nothing.
pub open spec fn normal_key(a: App, b: App, key: Key, r: KeyOutcome) -> bool {
    let down = r == KeyOutcome::Redraw && moved(a, b, row_below(a.selected, a.tasks@.len()));
    let up = r == KeyOutcome::Redraw && moved(a, b, row_above(a.selected, a.tasks@.len()));
    let toggle = r != KeyOutcome::Quit && toggled(a, b, r == KeyOutcome::Save);
    match key {
        Key::Char(c) => if c == 'q' {
            r == KeyOutcome::Quit && b == a
        } else if c == 'j' {
            down
        } else if c == 'k' {
            up
        } else if c == ' ' {
            toggle
        } else if c == 'd' {
            r != KeyOutcome::Quit && deleted(a, b, r == KeyOutcome::Save)
        } else if c == 'a' {
            r == KeyOutcome::Redraw && started(
                a,
                b,
                AppMode::Adding,
                Seq::empty(),
                "Add new task (Enter: save, Esc: cancel)"@,
            )
        } else if c == 'e' {
            r == KeyOutcome::Redraw && match selected_row(a) {
                Some(i) => started(
                    a,
                    b,
                    AppMode::Editing(a.tasks@[i as int].id),
                    a.tasks@[i as int].text@,
                    "Edit task (Enter: save, Esc: cancel)"@,
                ),
                None => b == a,
            }
        } else if c == 't' {
            r == KeyOutcome::Redraw && match selected_row(a) {
                Some(i) => started(
                    a,
                    b,
                    AppMode::SetDueDate(a.tasks@[i as int].id),
                    Seq::empty(),
                    "Set due date (YYYY-MM-DD) (Enter: save, Esc: cancel)"@,
                ),
                None => b == a,
            }
        } else {
            r == KeyOutcome::Redraw && b == a
        },
        Key::Down => down,
        Key::Up => up,
        Key::Enter => toggle,
        Key::Esc => r == KeyOutcome::Redraw && cancelled(a, b),
        _ => r == KeyOutcome::Redraw && b == a,
    }
}

/// A key in an input mode: Enter commits the input line, Esc leaves input
/// mode, a character or Backspace edits the input line; any other key does
/// nothing.
pub open spec fn input_key(a: App, b: App, key: Key, r: KeyOutcome) -> bool {
    match key {
        Key::Enter => r != KeyOutcome::Quit && match a.mode {
            AppMode::Adding => added(a, b, r == KeyOutcome::Save),
            AppMode::Editing(id) => edited(a, b, id, r == KeyOutcome::Save),
            AppMode::SetDueDate(id) => dated(a, b, id, r == KeyOutcome::Save),
            AppMode::Normal => true,
        },
        Key::Esc => r == KeyOutcome::Redraw && cancelled(a, b),
        Key::Char(c) => {
            &&& r == KeyOutcome::Redraw
            &&& b.tasks == a.tasks && b.selected == a.selected && b.mode == a.mode
            &&& b.message == a.message
            &&& b.input@ == a.input@.push(c)
        },
        Key::Backspace => {
            &&& r == KeyOutcome::Redraw
            &&& b.tasks == a.tasks && b.selected == a.selected && b.mode == a.mode
            &&& b.message == a.message
            &&& b.input@ == if a.input@.len() > 0 {
                a.input@.drop_last()
            } else {
                a.input@
            }
        },
        _ => r == KeyOutcome::Redraw && b == a,
    }
}

impl App {
    /// The view over `tasks`, with the first row selected when there is one.
    pub fn new(tasks: Vec<Task>) -> (r: App)
        ensures
            r.tasks@ == tasks@,
            r.selected == if tasks@.len() == 0 {
                None::<usize>
            } else {
                Some(0usize)
            },
            r.mode == AppMode::Normal,
            r.input@.len() == 0,
            r.message is None,
    {
        let selected = if tasks.len() == 0 {
            None
        } else {
            Some(0)
        };
        App { tasks, selected, mode: AppMode::Normal, input: String::new(), message: None }
    }

    /// Moves the selection one row down, wrapping to the top.
    pub fn next(&mut self)
        ensures
            moved(*old(self), *final(self), row_below(old(self).selected, old(self).tasks@.len())),
    {
        let len = self.tasks.len();
        self.selected = if len == 0 {
            None
        } else {
            match self.selected {
                Some(i) => if i >= len - 1 {
                    Some(0)
                } else {
                    Some(i + 1)
                },
                None => Some(0),
            }
        };
    }

    /// Moves the selection one row up, wrapping to the bottom.
    pub fn previous(&mut self)
        ensures
            moved(*old(self), *final(self), row_above(old(self).selected, old(self).tasks@.len())),
    {
        let len = self.tasks.len();
        self.selected = if len == 0 {
            None
        } else {
            match self.selected {
                Some(i) => if i == 0 {
                    Some(len - 1)
                } else {
                    Some(i - 1)
                },
                None => Some(0),
            }
        };
    }

    /// Flips the `done` flag of the selected task; true when the list changed
    /// and is to be saved.
    pub fn toggle_current(&mut self) -> (changed: bool)
        ensures
            toggled(*old(self), *final(self), changed),
    {
        match self.selected {
            Some(i) => {
                if i < self.tasks.len() {
                    let done = !self.tasks[i].done;
                    self.tasks[i].done = done;
                    self.message = Some(task_message(self.tasks[i].id, " completed!"));
                    true
                } else {
                    false
                }
            },
            None => false,
        }
    }

    /// Removes the selected task and keeps a row selected where one is left;
    /// true when the list changed and is to be saved.
    pub fn delete_current(&mut self) -> (changed: bool)
        ensures
            deleted(*old(self), *final(self), changed),
    {
        match self.selected {
            Some(i) => {
                if i < self.tasks.len() {
                    let removed = self.tasks.remove(i);
                    self.message = Some(task_message(removed.id, " deleted!"));
                    if self.tasks.len() == 0 {
                        self.selected = None;
                    } else if i >= self.tasks.len() {
                        self.selected = Some(self.tasks.len() - 1);
                    }
                    true
                } else {
                    false
                }
            },
            None => false,
        }
    }

    fn leave_input(&mut self)
        ensures
            final(self).tasks == old(self).tasks,
            final(self).selected == old(self).selected,
            final(self).message == old(self).message,
            input_closed(*final(self)),
    {
        self.input = String::new();
        self.mode = AppMode::Normal;
    }

    /// Leaves input mode with `m` as the message, changing no task.
    fn reject_input(&mut self, m: String)
        ensures
            final(self).tasks == old(self).tasks,
            final(self).selected == old(self).selected,
            final(self).message == Some(m),
            input_closed(*final(self)),
    {
        self.message = Some(m);
        self.leave_input();
    }

    /// Adds a task, without a due date, from the input line under the next
    /// id; true when the list changed and is to be saved.
    pub fn add_task(&mut self) -> (changed: bool)
        ensures
            added(*old(self), *final(self), changed),
    {
        if self.input.as_str().is_empty() {
            return false;
        }
        match check_task_text(self.input.as_str()) {
            Ok(()) => {},
            Err(e) => {
                let m = match e {
                    TaskError::InvalidInput(m) => m,
                    other => other.message(),
                };
                self.reject_input(m);
                return false;
            },
        }
        let top = highest_id(&self.tasks);
        if top == u32::MAX {
            self.reject_input(String::from_str("No task id is left"));
            return false;
        }
        let id = top + 1;
        let text = self.input.clone();
        self.tasks.push(Task { id, text, done: false, due_date: None });
        self.message = Some(task_message(id, " added!"));
        self.selected = Some(self.tasks.len() - 1);
        self.leave_input();
        true
    }

    /// Replaces the text of the task with id `id` by the input line; true
    /// when the list changed and is to be saved.
    pub fn edit_task(&mut self, id: u32) -> (changed: bool)
        ensures
            edited(*old(self), *final(self), id, changed),
    {
        if self.input.as_str().is_empty() {
            return false;
        }
        match check_task_text(self.input.as_str()) {
            Ok(()) => {},
            Err(e) => {
                let m = match e {
                    TaskError::InvalidInput(m) => m,
                    other => other.message(),
                };
                self.reject_input(m);
                return false;
            },
        }
        let ghost before = self.tasks@;
        let changed = match position_of(&self.tasks, id) {
            Some(i) => {
                let text = self.input.clone();
                self.tasks[i].text = text;
                self.message = Some(task_message(id, " updated!"));
                proof {
                    assert forall|j: int| is_first_with_id(before, id, j) implies j == i by {
                        lemma_first_with_id_unique(before, id, i as int, j);
                    }
                    assert(self.tasks@ =~= before.update(i as int, self.tasks@[i as int]));
                }
                true
            },
            None => false,
        };
        self.leave_input();
        changed
    }

    /// Sets the due date of the task with id `id` to the input line, once it
    /// passes date validation; true when the list changed and is to be saved.
    pub fn set_due_date(&mut self, id: u32) -> (changed: bool)
        ensures
            dated(*old(self), *final(self), id, changed),
    {
        if self.input.as_str().is_empty() {
            return false;
        }
        match validate_date(self.input.as_str()) {
            Ok(()) => {},
            Err(e) => {
                self.reject_input(e.message());
                return false;
            },
        }
        let ghost before = self.tasks@;
        let changed = match position_of(&self.tasks, id) {
            Some(i) => {
                let date = self.input.clone();
                self.tasks[i].due_date = Some(date);
                let mut m = String::from_str("Due date ");
                append_str(&mut m, self.input.as_str());
                append_str(&mut m, " set!");
                self.message = Some(m);
                proof {
                    assert forall|j: int| is_first_with_id(before, id, j) implies j == i by {
                        lemma_first_with_id_unique(before, id, i as int, j);
                    }
                    assert(self.tasks@ =~= before.update(i as int, self.tasks@[i as int]));
                }
                true
            },
            None => false,
        };
        self.leave_input();
        changed
    }

    /// Leaves input mode without a change, clearing the input and the message.
    fn cancel_input(&mut self)
        ensures
            cancelled(*old(self), *final(self)),
    {
        self.leave_input();
        self.message = None;
    }

    /// Starts input mode `mode` with the input line `input` and the hint `hint`.
    fn start_input(&mut self, mode: AppMode, input: String, hint: &str)
        ensures
            started(*old(self), *final(self), mode, input@, hint@),
    {
        self.mode = mode;
        self.input = input;
        self.message = Some(String::from_str(hint));
    }

    /// Handles one key press, as `normal_key` and `input_key` describe.
    pub fn handle_key(&mut self, key: Key) -> (r: KeyOutcome)
        ensures
            match old(self).mode {
                AppMode::Normal => normal_key(*old(self), *final(self), key, r),
                _ => input_key(*old(self), *final(self), key, r),
            },
    {
        match self.mode {
            AppMode::Normal => match key {
                Key::Char('q') => KeyOutcome::Quit,
                Key::Char('j') | Key::Down => {
                    self.next();
                    KeyOutcome::Redraw
                },
                Key::Char('k') | Key::Up => {
                    self.previous();
                    KeyOutcome::Redraw
                },
                Key::Char(' ') | Key::Enter => {
                    if self.toggle_current() {
                        KeyOutcome::Save
                    } else {
                        KeyOutcome::Redraw
                    }
                },
                Key::Char('d') => {
                    if self.delete_current() {
                        KeyOutcome::Save
                    } else {
                        KeyOutcome::Redraw
                    }
                },
                Key::Char('a') => {
                    proof {
                        reveal_strlit("Add new task (Enter: save, Esc: cancel)");
                    }
                    self.start_input(AppMode::Adding, String::new(), "Add new task (Enter: save, Esc: cancel)");
                    KeyOutcome::Redraw
                },
                Key::Char('e') => {
                    match self.selected {
                        Some(i) => {
                            if i < self.tasks.len() {
                                let text = self.tasks[i].text.clone();
                                let mode = AppMode::Editing(self.tasks[i].id);
                                self.start_input(mode, text, "Edit task (Enter: save, Esc: cancel)");
                            }
                        },
                        None => {},
                    }
                    KeyOutcome::Redraw
                },
                Key::Char('t') => {
                    match self.selected {
                        Some(i) => {
                            if i < self.tasks.len() {
                                let mode = AppMode::SetDueDate(self.tasks[i].id);
                                self.start_input(mode, String::new(), "Set due date (YYYY-MM-DD) (Enter: save, Esc: cancel)");
                            }
                        },
                        None => {},
                    }
                    KeyOutcome::Redraw
                },
                Key::Esc => {
                    self.cancel_input();
                    KeyOutcome::Redraw
                },
                _ => KeyOutcome::Redraw,
            },
            mode => match key {
                Key::Enter => {
                    let changed = match mode {
                        AppMode::Adding => self.add_task(),
                        AppMode::Editing(id) => self.edit_task(id),
                        AppMode::SetDueDate(id) => self.set_due_date(id),
                        AppMode::Normal => false,
                    };
                    if changed {
                        KeyOutcome::Save
                    } else {
                        KeyOutcome::Redraw
                    }
                },
                Key::Esc => {
                    self.cancel_input();
                    KeyOutcome::Redraw
                },
                Key::Char(c) => {
                    push_char(&mut self.input, c);
                    KeyOutcome::Redraw
                },
                Key::Backspace => {
                    pop_char(&mut self.input);
                    KeyOutcome::Redraw
                },
                _ => KeyOutcome::Redraw,
            },
        }
    }
}

} // verus!
