use vstd::prelude::*;
use crate::date::{Date, date_text, date_with_offset, format_date, is_valid_date, shifted, validate_date};
use crate::task::{
    Task, TaskError, TaskView, check_task_text, decimal, is_acceptable_text, task_message,
    tasks_view, text_problem,
};
use crate::text::{
    blank, char_count, chars_of, contains_chars, has_substring, is_blank, less_than, lower_of,
    lowercase, text_less,
};

verus! {

/// Most characters a search query may have.
pub const MAX_QUERY_CHARS: usize = 100;

/// Some task of `tasks` has id `id`.
pub open spec fn has_id(tasks: Seq<Task>, id: u32) -> bool {
    exists|i: int| 0 <= i < tasks.len() && (#[trigger] tasks[i]).id == id
}

/// `i` is the position of the first task of `tasks` with id `id`.
pub open spec fn is_first_with_id(tasks: Seq<Task>, id: u32, i: int) -> bool {
    &&& 0 <= i < tasks.len()
    &&& tasks[i].id == id
    &&& forall|k: int| 0 <= k < i ==> (#[trigger] tasks[k]).id != id
}

/// There is only one first position of an id.
pub proof fn lemma_first_with_id_unique(tasks: Seq<Task>, id: u32, i: int, j: int)
    requires
        is_first_with_id(tasks, id, i),
        is_first_with_id(tasks, id, j),
    ensures
        i == j,
{
    if j < i {
        assert(tasks[j].id == id);
    }
    if i < j {
        assert(tasks[i].id == id);
    }
}

/// The message for an id that names no task: `"Task <id> not found"`.
pub open spec fn not_found_text(id: u32) -> Seq<char> {
    "Task "@ + decimal(id as nat) + " not found"@
}

/// Why an id names no task: 0 is never an id, any other is not found.
pub open spec fn id_problem(id: u32) -> Seq<char> {
    if id == 0 {
        "Task ID cannot be 0"@
    } else {
        not_found_text(id)
    }
}

/// Finds the task with id `id`; 0 is never a task id.
pub fn validate_task_id(id: u32, tasks: &Vec<Task>) -> (r: Result<usize, String>)
    ensures
        r is Ok <==> id != 0 && has_id(tasks@, id),
        r matches Ok(i) ==> is_first_with_id(tasks@, id, i as int),
        r matches Err(m) ==> m@ == if id == 0 {
            "Task ID cannot be 0"@
        } else {
            not_found_text(id)
        },
{
    if id == 0 {
        return Err(String::from_str("Task ID cannot be 0"));
    }
    let mut i: usize = 0;
    while i < tasks.len()
        invariant
            id != 0,
            i <= tasks.len(),
            forall|k: int| 0 <= k < i ==> (#[trigger] tasks@[k]).id != id,
        decreases tasks.len() - i,
    {
        if tasks[i].id == id {
            assert(tasks@[i as int].id == id);
            return Ok(i);
        }
        i = i + 1;
    }
    Err(task_message(id, " not found"))
}

fn not_found(id: u32, tasks: &Vec<Task>) -> (r: Result<usize, TaskError>)
    ensures
        r is Ok <==> id != 0 && has_id(tasks@, id),
        r matches Ok(i) ==> is_first_with_id(tasks@, id, i as int),
        r matches Err(e) ==> e matches TaskError::InvalidInput(m) && m@ == if id == 0 {
            "Task ID cannot be 0"@
        } else {
            not_found_text(id)
        },
{
    match validate_task_id(id, tasks) {
        Ok(i) => Ok(i),
        Err(m) => Err(TaskError::InvalidInput(m)),
    }
}

/// The largest id in `tasks`, or 0 when there is none.
pub open spec fn max_id(tasks: Seq<Task>) -> int
    decreases tasks.len(),
{
    if tasks.len() == 0 {
        0
    } else {
        let m = max_id(tasks.drop_last());
        if tasks.last().id > m {
            tasks.last().id as int
        } else {
            m
        }
    }
}

/// The largest id in `tasks`, or 0 when there is none.
pub fn highest_id(tasks: &Vec<Task>) -> (r: u32)
    ensures
        r == max_id(tasks@),
{
    let mut m: u32 = 0;
    let mut i: usize = 0;
    while i < tasks.len()
        invariant
            i <= tasks.len(),
            m == max_id(tasks@.subrange(0, i as int)),
        decreases tasks.len() - i,
    {
        assert(tasks@.subrange(0, i + 1).drop_last() =~= tasks@.subrange(0, i as int));
        if tasks[i].id > m {
            m = tasks[i].id;
        }
        i = i + 1;
    }
    assert(tasks@.subrange(0, i as int) =~= tasks@);
    m
}

/// No two tasks of `tasks` share an id.
pub open spec fn ids_unique(tasks: Seq<Task>) -> bool {
    forall|i: int, j: int|
        0 <= i < tasks.len() && 0 <= j < tasks.len() && i != j ==> (#[trigger] tasks[i]).id
            != (#[trigger] tasks[j]).id
}

/// Every task of `tasks` is one the store accepts.
pub open spec fn all_valid(tasks: Seq<Task>) -> bool {
    forall|i: int| 0 <= i < tasks.len() ==> crate::task::is_valid_task(#[trigger] tasks[i]@)
}

proof fn lemma_max_id_bounds(tasks: Seq<Task>)
    ensures
        forall|i: int| 0 <= i < tasks.len() ==> (#[trigger] tasks[i]).id <= max_id(tasks),
        max_id(tasks) <= u32::MAX,
    decreases tasks.len(),
{
    if tasks.len() > 0 {
        let rest = tasks.drop_last();
        lemma_max_id_bounds(rest);
        assert forall|i: int| 0 <= i < tasks.len() implies (#[trigger] tasks[i]).id <= max_id(tasks) by {
            if i < tasks.len() - 1 {
                assert(rest[i] == tasks[i]);
            }
        }
    }
}

proof fn lemma_update_keeps(before: Seq<Task>, i: int, t: Task)
    requires
        0 <= i < before.len(),
        t.id == before[i].id,
    ensures
        ids_unique(before) ==> ids_unique(before.update(i, t)),
        all_valid(before) && crate::task::is_valid_task(t@) ==> all_valid(before.update(i, t)),
{
    let after = before.update(i, t);
    if ids_unique(before) {
        assert forall|a: int, b: int|
            0 <= a < after.len() && 0 <= b < after.len() && a != b implies (#[trigger] after[a]).id
                != (#[trigger] after[b]).id by {
            assert(after[a].id == before[a].id && after[b].id == before[b].id);
        }
    }
    if all_valid(before) && crate::task::is_valid_task(t@) {
        assert forall|k: int| 0 <= k < after.len() implies crate::task::is_valid_task(
            #[trigger] after[k]@,
        ) by {
            if k != i {
                assert(after[k] == before[k]);
            }
        }
    }
}

/// The task that adding `text` creates, with id `id` and due on `due`.
pub open spec fn new_task(id: u32, text: Seq<char>, due: Date) -> TaskView {
    TaskView { id, text, done: false, due_date: Some(date_text(due)) }
}

/// The day `days` days after `today` lies in the years 1900 to 9999.
pub open spec fn offset_in_range(today: Date, days: int) -> bool {
    crate::date::FIRST_DAY <= today.number() + days <= crate::date::LAST_DAY
}

/// Why a due date offset is refused.
pub open spec fn offset_problem() -> Seq<char> {
    "Due date out of range (years 1900 to 9999)"@
}

/// The due date `days_offset` days after `today`, refused when it falls
/// outside the years 1900 to 9999.
pub fn due_date_for(today: Date, days_offset: i32) -> (r: Result<Date, TaskError>)
    requires
        today.is_valid(),
    ensures
        r is Ok <==> offset_in_range(today, days_offset as int),
        r matches Ok(d) ==> d == shifted(today, days_offset as int) && d.is_valid(),
        r matches Err(e) ==> (e matches TaskError::InvalidInput(m) && m@ == offset_problem()),
{
    match crate::date::offset_date(today, days_offset as i64) {
        Some(_) => Ok(date_with_offset(today, days_offset as i64)),
        None => Err(TaskError::InvalidInput(String::from_str("Due date out of range (years 1900 to 9999)"))),
    }
}

/// Adds a task with text `text`, due `days_offset` days after `today`, under
/// the next id; gives that id back. Text is checked first, then the due
/// date, then that an id is left.
pub fn add_task(tasks: &mut Vec<Task>, text: String, today: Date, days_offset: i32) -> (r: Result<u32, TaskError>)
    requires
        today.is_valid(),
    ensures
        r is Ok <==> is_acceptable_text(text@) && offset_in_range(today, days_offset as int) && max_id(
            old(tasks)@,
        ) < u32::MAX,
        r is Err ==> final(tasks)@ == old(tasks)@,
        r matches Err(e) ==> (e matches TaskError::InvalidInput(m) && m@ == if !is_acceptable_text(
            text@,
        ) {
            text_problem(text@)
        } else if !offset_in_range(today, days_offset as int) {
            offset_problem()
        } else {
            "no task id is left"@
        }),
        r matches Ok(id) ==> {
            &&& id == max_id(old(tasks)@) + 1
            &&& final(tasks)@.len() == old(tasks)@.len() + 1
            &&& final(tasks)@.drop_last() == old(tasks)@
            &&& final(tasks)@.last()@ == new_task(id, text@, shifted(today, days_offset as int))
        },
        r is Ok && ids_unique(old(tasks)@) ==> ids_unique(final(tasks)@),
        r is Ok && all_valid(old(tasks)@) ==> all_valid(final(tasks)@),
{
    match check_task_text(text.as_str()) {
        Ok(()) => {},
        Err(e) => {
            return Err(e);
        },
    }
    let due = match due_date_for(today, days_offset) {
        Ok(d) => d,
        Err(e) => {
            return Err(e);
        },
    };
    let top = highest_id(tasks);
    if top == u32::MAX {
        return Err(TaskError::InvalidInput(String::from_str("no task id is left")));
    }
    let id = top + 1;
    let ghost before = tasks@;
    tasks.push(Task { id, text, done: false, due_date: Some(format_date(due)) });
    assert(tasks@.drop_last() =~= before);
    proof {
        lemma_max_id_bounds(before);
        crate::date::lemma_date_text_valid(due);
        let after = tasks@;
        assert forall|k: int| 0 <= k < before.len() implies after[k] == before[k] by {}
        if ids_unique(before) {
            assert forall|a: int, b: int|
                0 <= a < after.len() && 0 <= b < after.len() && a != b implies (#[trigger] after[a]).id
                    != (#[trigger] after[b]).id by {
                if a < before.len() && b < before.len() {
                    assert(before[a] == after[a] && before[b] == after[b]);
                }
            }
        }
        if all_valid(before) {
            assert forall|k: int| 0 <= k < after.len() implies crate::task::is_valid_task(
                #[trigger] after[k]@,
            ) by {
                if k < before.len() {
                    assert(before[k] == after[k]);
                }
            }
        }
    }
    Ok(id)
}

/// Flips the `done` flag of the task with id `id`; gives its new value back.
pub fn toggle_task(tasks: &mut Vec<Task>, id: u32) -> (r: Result<bool, TaskError>)
    ensures
        r is Ok <==> id != 0 && has_id(old(tasks)@, id),
        r is Err ==> final(tasks)@ == old(tasks)@,
        r matches Err(e) ==> e matches TaskError::InvalidInput(m) && m@ == if id == 0 {
            "Task ID cannot be 0"@
        } else {
            not_found_text(id)
        },
        forall|i: int|
            #![trigger is_first_with_id(old(tasks)@, id, i)]
            r is Ok && is_first_with_id(old(tasks)@, id, i) ==> {
                &&& r == Ok::<bool, TaskError>(!old(tasks)@[i].done)
                &&& final(tasks)@ == old(tasks)@.update(
                    i,
                    Task { done: !old(tasks)@[i].done, ..old(tasks)@[i] },
                )
            },
        r is Ok && ids_unique(old(tasks)@) ==> ids_unique(final(tasks)@),
        r is Ok && all_valid(old(tasks)@) ==> all_valid(final(tasks)@),
{
    let i = match not_found(id, tasks) {
        Ok(i) => i,
        Err(e) => {
            return Err(e);
        },
    };
    let ghost before = tasks@;
    let done = !tasks[i].done;
    tasks[i].done = done;
    proof {
        if all_valid(before) {
            assert(crate::task::is_valid_task(before[i as int]@));
            assert(crate::task::is_valid_task(tasks@[i as int]@));
        }
        lemma_update_keeps(before, i as int, tasks@[i as int]);
        assert(tasks@ == before.update(i as int, tasks@[i as int]));
        assert forall|j: int| is_first_with_id(before, id, j) implies j == i by {
            lemma_first_with_id_unique(before, id, i as int, j);
        }
    }
    Ok(done)
}

proof fn lemma_filter_step(v: Seq<Task>, i: int, p: spec_fn(TaskView) -> bool)
    requires
        0 <= i < v.len(),
    ensures
        tasks_view(v.subrange(0, i + 1)).filter(p) == if p(v[i]@) {
            tasks_view(v.subrange(0, i)).filter(p).push(v[i]@)
        } else {
            tasks_view(v.subrange(0, i)).filter(p)
        },
{
    reveal(Seq::filter);
    let a = tasks_view(v.subrange(0, i + 1));
    assert(a.drop_last() =~= tasks_view(v.subrange(0, i)));
    assert(a.last() == v[i]@);
}

proof fn lemma_filter_done(v: Seq<Task>, p: spec_fn(TaskView) -> bool)
    ensures
        tasks_view(v.subrange(0, v.len() as int)).filter(p) == tasks_view(v).filter(p),
{
    assert(v.subrange(0, v.len() as int) =~= v);
}

proof fn lemma_view_push(v: Seq<Task>, t: Task)
    ensures
        tasks_view(v.push(t)) == tasks_view(v).push(t@),
{
    assert(tasks_view(v.push(t)) =~= tasks_view(v).push(t@));
}

/// Removes every task with id `id`.
pub fn delete_task(tasks: &mut Vec<Task>, id: u32) -> (r: Result<(), TaskError>)
    ensures
        r is Ok <==> id != 0 && has_id(old(tasks)@, id),
        r is Err ==> final(tasks)@ == old(tasks)@,
        r matches Err(e) ==> e matches TaskError::InvalidInput(m) && m@ == if id == 0 {
            "Task ID cannot be 0"@
        } else {
            not_found_text(id)
        },
        r is Ok ==> tasks_view(final(tasks)@) == tasks_view(old(tasks)@).filter(
            |t: TaskView| t.id != id,
        ),
{
    match not_found(id, tasks) {
        Ok(_) => {},
        Err(e) => {
            return Err(e);
        },
    }
    let ghost before = tasks@;
    let mut kept: Vec<Task> = Vec::new();
    let mut i: usize = 0;
    while i < tasks.len()
        invariant
            tasks@ == before,
            i <= tasks.len(),
            tasks_view(kept@) == tasks_view(before.subrange(0, i as int)).filter(
                |t: TaskView| t.id != id,
            ),
        decreases tasks.len() - i,
    {
        proof {
            lemma_filter_step(before, i as int, |t: TaskView| t.id != id);
        }
        if tasks[i].id != id {
            let t = tasks[i].duplicate();
            proof {
                lemma_view_push(kept@, t);
            }
            kept.push(t);
        }
        i = i + 1;
    }
    proof {
        lemma_filter_done(before, |t: TaskView| t.id != id);
    }
    *tasks = kept;
    Ok(())
}

/// Replaces the text of the task with id `id`.
pub fn edit_task(tasks: &mut Vec<Task>, id: u32, new_text: String) -> (r: Result<(), TaskError>)
    ensures
        r is Ok <==> is_acceptable_text(new_text@) && id != 0 && has_id(old(tasks)@, id),
        r is Err ==> final(tasks)@ == old(tasks)@,
        r matches Err(e) ==> (e matches TaskError::InvalidInput(m) && m@ == if is_acceptable_text(
            new_text@,
        ) {
            id_problem(id)
        } else {
            text_problem(new_text@)
        }),
        forall|i: int|
            #![trigger is_first_with_id(old(tasks)@, id, i)]
            r is Ok && is_first_with_id(old(tasks)@, id, i) ==> final(tasks)@ == old(
                tasks,
            )@.update(i, Task { text: new_text, ..old(tasks)@[i] }),
        r is Ok && ids_unique(old(tasks)@) ==> ids_unique(final(tasks)@),
        r is Ok && all_valid(old(tasks)@) ==> all_valid(final(tasks)@),
{
    match check_task_text(new_text.as_str()) {
        Ok(()) => {},
        Err(e) => {
            return Err(e);
        },
    }
    let i = match not_found(id, tasks) {
        Ok(i) => i,
        Err(e) => {
            return Err(e);
        },
    };
    let ghost before = tasks@;
    tasks[i].text = new_text;
    proof {
        if all_valid(before) {
            assert(crate::task::is_valid_task(before[i as int]@));
            assert(crate::task::is_valid_task(tasks@[i as int]@));
        }
        lemma_update_keeps(before, i as int, tasks@[i as int]);
        assert(tasks@ == before.update(i as int, tasks@[i as int]));
        assert forall|j: int| is_first_with_id(before, id, j) implies j == i by {
            lemma_first_with_id_unique(before, id, i as int, j);
        }
    }
    Ok(())
}

/// Sets the due date of the task with id `id`; the date is checked first.
pub fn set_due_date(tasks: &mut Vec<Task>, id: u32, date: String) -> (r: Result<(), TaskError>)
    ensures
        r is Ok <==> is_valid_date(date@) && id != 0 && has_id(old(tasks)@, id),
        r is Err ==> final(tasks)@ == old(tasks)@,
        !is_valid_date(date@) ==> (r matches Err(e) && e matches TaskError::InvalidDate(d) && d@
            == date@),
        is_valid_date(date@) && r is Err ==> (r matches Err(e) && e matches TaskError::InvalidInput(m)
            && m@ == id_problem(id)),
        forall|i: int|
            #![trigger is_first_with_id(old(tasks)@, id, i)]
            r is Ok && is_first_with_id(old(tasks)@, id, i) ==> final(tasks)@ == old(
                tasks,
            )@.update(i, Task { due_date: Some(date), ..old(tasks)@[i] }),
        r is Ok && ids_unique(old(tasks)@) ==> ids_unique(final(tasks)@),
        r is Ok && all_valid(old(tasks)@) ==> all_valid(final(tasks)@),
{
    match validate_date(date.as_str()) {
        Ok(()) => {},
        Err(e) => {
            return Err(e);
        },
    }
    let i = match not_found(id, tasks) {
        Ok(i) => i,
        Err(e) => {
            return Err(e);
        },
    };
    let ghost before = tasks@;
    tasks[i].due_date = Some(date);
    proof {
        if all_valid(before) {
            assert(crate::task::is_valid_task(before[i as int]@));
            assert(crate::task::is_valid_task(tasks@[i as int]@));
        }
        lemma_update_keeps(before, i as int, tasks@[i as int]);
        assert(tasks@ == before.update(i as int, tasks@[i as int]));
        assert forall|j: int| is_first_with_id(before, id, j) implies j == i by {
            lemma_first_with_id_unique(before, id, i as int, j);
        }
    }
    Ok(())
}

/// A search query may be given: not only white space, at most
/// `MAX_QUERY_CHARS` characters.
pub open spec fn is_acceptable_query(q: Seq<char>) -> bool {
    !is_blank(q) && q.len() <= MAX_QUERY_CHARS
}

/// The task's text, in lower case, holds the lower-case query.
pub open spec fn matches_query(t: TaskView, folded_query: Seq<char>) -> bool {
    has_substring(lower_of(t.text), folded_query)
}

/// Whether a text, already in lower case, holds a query, already in lower case.
pub fn matches_folded(folded_text: &str, folded_query: &str) -> (r: bool)
    ensures
        r == has_substring(folded_text@, folded_query@),
{
    contains_chars(&chars_of(folded_text), &chars_of(folded_query))
}

/// Checks a search query.
pub fn check_query(query: &str) -> (r: Result<(), TaskError>)
    ensures
        r is Ok <==> is_acceptable_query(query@),
        r matches Err(e) ==> (e matches TaskError::InvalidInput(m) && m@ == if is_blank(query@) {
            "Search query cannot be empty!"@
        } else {
            "Search query is too long (max 100 characters)!"@
        }),
{
    if blank(query) {
        return Err(TaskError::InvalidInput(String::from_str("Search query cannot be empty!")));
    }
    if char_count(query) > MAX_QUERY_CHARS {
        return Err(TaskError::InvalidInput(String::from_str("Search query is too long (max 100 characters)!")));
    }
    Ok(())
}

/// The tasks whose text holds the query, ignoring case, in list order.
pub fn search(tasks: &Vec<Task>, query: &str) -> (r: Result<Vec<Task>, TaskError>)
    ensures
        r is Ok <==> is_acceptable_query(query@),
        r matches Err(e) ==> (e matches TaskError::InvalidInput(m) && m@ == if is_blank(query@) {
            "Search query cannot be empty!"@
        } else {
            "Search query is too long (max 100 characters)!"@
        }),
        r matches Ok(found) ==> tasks_view(found@) == tasks_view(tasks@).filter(
            |t: TaskView| matches_query(t, lower_of(query@)),
        ),
{
    match check_query(query) {
        Ok(()) => {},
        Err(e) => {
            return Err(e);
        },
    }
    let folded = lowercase(query);
    let mut found: Vec<Task> = Vec::new();
    let mut i: usize = 0;
    while i < tasks.len()
        invariant
            i <= tasks.len(),
            folded@ == lower_of(query@),
            tasks_view(found@) == tasks_view(tasks@.subrange(0, i as int)).filter(
                |t: TaskView| matches_query(t, lower_of(query@)),
            ),
        decreases tasks.len() - i,
    {
        proof {
            lemma_filter_step(tasks@, i as int, |t: TaskView| matches_query(t, lower_of(query@)));
        }
        let text = lowercase(tasks[i].text.as_str());
        if matches_folded(text.as_str(), folded.as_str()) {
            let t = tasks[i].duplicate();
            proof {
                lemma_view_push(found@, t);
            }
            found.push(t);
        }
        i = i + 1;
    }
    proof {
        lemma_filter_done(tasks@, |t: TaskView| matches_query(t, lower_of(query@)));
    }
    Ok(found)
}

/// The task is due strictly before `cutoff`, comparing `YYYY-MM-DD` texts;
/// a task without a due date is never older.
pub open spec fn is_older(t: TaskView, cutoff: Seq<char>) -> bool {
    match t.due_date {
        Some(d) => text_less(d, cutoff),
        None => false,
    }
}

/// The day before which archiving by age takes tasks: `days_ago` days
/// before `today`. With `days_ago` 0 every task due before today goes; with
/// 1, yesterday's tasks stay too.
pub fn archive_cutoff(today: Date, days_ago: i32) -> (r: String)
    requires
        today.is_valid(),
    ensures
        r@ == date_text(shifted(today, -days_ago)),
{
    format_date(date_with_offset(today, -(days_ago as i64)))
}

/// Splits `tasks` into those that stay and those due before `cutoff`,
/// keeping the order of each.
pub fn split_older(tasks: Vec<Task>, cutoff: &str) -> (r: (Vec<Task>, Vec<Task>))
    ensures
        tasks_view(r.0@) == tasks_view(tasks@).filter(|t: TaskView| !is_older(t, cutoff@)),
        tasks_view(r.1@) == tasks_view(tasks@).filter(|t: TaskView| is_older(t, cutoff@)),
        forall|k: int| 0 <= k < r.1@.len() ==> (#[trigger] r.1@[k]).due_date is Some,
{
    let ghost keep = |t: TaskView| !is_older(t, cutoff@);
    let ghost take = |t: TaskView| is_older(t, cutoff@);
    let mut kept: Vec<Task> = Vec::new();
    let mut older: Vec<Task> = Vec::new();
    let mut i: usize = 0;
    while i < tasks.len()
        invariant
            i <= tasks.len(),
            keep == (|t: TaskView| !is_older(t, cutoff@)),
            take == (|t: TaskView| is_older(t, cutoff@)),
            tasks_view(kept@) == tasks_view(tasks@.subrange(0, i as int)).filter(keep),
            tasks_view(older@) == tasks_view(tasks@.subrange(0, i as int)).filter(take),
            forall|k: int| 0 <= k < older@.len() ==> (#[trigger] older@[k]).due_date is Some,
        decreases tasks.len() - i,
    {
        proof {
            lemma_filter_step(tasks@, i as int, keep);
            lemma_filter_step(tasks@, i as int, take);
        }
        let t = tasks[i].duplicate();
        let due_before = match &t.due_date {
            Some(d) => less_than(d.as_str(), cutoff),
            None => false,
        };
        if due_before {
            proof {
                lemma_view_push(older@, t);
            }
            older.push(t);
        } else {
            proof {
                lemma_view_push(kept@, t);
            }
            kept.push(t);
        }
        i = i + 1;
    }
    proof {
        lemma_filter_done(tasks@, keep);
        lemma_filter_done(tasks@, take);
    }
    (kept, older)
}

/// Appends `tasks_to_remove` to the archive that was read, or passes on the
/// error met reading it.
pub fn add_to_removed_result(removed: Result<Vec<Task>, TaskError>, tasks_to_remove: Vec<Task>) -> (r: Result<Vec<Task>, TaskError>)
    ensures
        r is Ok <==> removed is Ok,
        r matches Ok(all) ==> all@ == removed->Ok_0@ + tasks_to_remove@,
{
    match removed {
        Ok(mut all) => {
            let mut more = tasks_to_remove;
            all.append(&mut more);
            Ok(all)
        },
        Err(e) => Err(e),
    }
}

/// A task that a listing shows: with `today_only`, those due on `today`;
/// else with `show_all`, every task; else the pending ones.
pub open spec fn is_listed(t: TaskView, show_all: bool, today_only: bool, today: Seq<char>) -> bool {
    if today_only {
        t.due_date == Some(today)
    } else if show_all {
        true
    } else {
        !t.done
    }
}

/// The tasks that a listing shows, in list order.
pub fn listed_tasks(tasks: &Vec<Task>, show_all: bool, today_only: bool, today: &str) -> (r: Vec<Task>)
    ensures
        tasks_view(r@) == tasks_view(tasks@).filter(|t: TaskView| is_listed(t, show_all, today_only, today@)),
{
    let ghost p = |t: TaskView| is_listed(t, show_all, today_only, today@);
    let mut out: Vec<Task> = Vec::new();
    let mut i: usize = 0;
    while i < tasks.len()
        invariant
            i <= tasks.len(),
            p == (|t: TaskView| is_listed(t, show_all, today_only, today@)),
            tasks_view(out@) == tasks_view(tasks@.subrange(0, i as int)).filter(p),
        decreases tasks.len() - i,
    {
        proof {
            lemma_filter_step(tasks@, i as int, p);
        }
        let listed = if today_only {
            match &tasks[i].due_date {
                Some(d) => crate::text::same_text(d.as_str(), today),
                None => false,
            }
        } else if show_all {
            true
        } else {
            !tasks[i].done
        };
        if listed {
            let t = tasks[i].duplicate();
            proof {
                lemma_view_push(out@, t);
            }
            out.push(t);
        }
        i = i + 1;
    }
    proof {
        lemma_filter_done(tasks@, p);
    }
    out
}

/// Number of completed tasks.
pub fn count_done(tasks: &Vec<Task>) -> (r: usize)
    ensures
        r == tasks_view(tasks@).filter(|t: TaskView| t.done).len(),
{
    let ghost p = |t: TaskView| t.done;
    let mut n: usize = 0;
    let mut i: usize = 0;
    while i < tasks.len()
        invariant
            i <= tasks.len(),
            p == (|t: TaskView| t.done),
            n == tasks_view(tasks@.subrange(0, i as int)).filter(p).len(),
            n <= i,
        decreases tasks.len() - i,
    {
        proof {
            lemma_filter_step(tasks@, i as int, p);
        }
        if tasks[i].done {
            n = n + 1;
        }
        i = i + 1;
    }
    proof {
        lemma_filter_done(tasks@, p);
    }
    n
}

/// How a listing marks a task by its due date.
#[derive(Debug, Clone, Copy, PartialEq, Eq, Structural)]
pub enum DueClass {
    /// Completed; shown plainly whatever its date.
    Done,
    /// Pending without a due date.
    NoDate,
    /// Pending and due before today.
    Overdue,
    /// Pending and due today.
    Today,
    /// Pending and due tomorrow.
    Tomorrow,
    /// Pending and due after tomorrow.
    Later,
}

pub open spec fn due_class_of(t: TaskView, today: Seq<char>, tomorrow: Seq<char>) -> DueClass {
    if t.done {
        DueClass::Done
    } else {
        match t.due_date {
            None => DueClass::NoDate,
            Some(d) => if text_less(d, today) {
                DueClass::Overdue
            } else if text_less(today, d) {
                if d == tomorrow {
                    DueClass::Tomorrow
                } else {
                    DueClass::Later
                }
            } else {
                DueClass::Today
            },
        }
    }
}

/// The mark of a task in a listing, given today's and tomorrow's dates.
pub fn due_class(t: &Task, today: &str, tomorrow: &str) -> (r: DueClass)
    ensures
        r == due_class_of(t@, today@, tomorrow@),
{
    if t.done {
        return DueClass::Done;
    }
    match &t.due_date {
        None => DueClass::NoDate,
        Some(d) => {
            if less_than(d.as_str(), today) {
                DueClass::Overdue
            } else if less_than(today, d.as_str()) {
                if crate::text::same_text(d.as_str(), tomorrow) {
                    DueClass::Tomorrow
                } else {
                    DueClass::Later
                }
            } else {
                DueClass::Today
            }
        },
    }
}

/// Display order: tasks with a due date first, by date; those without one
/// after them, by id.
pub open spec fn shown_before(a: TaskView, b: TaskView) -> bool {
    match (a.due_date, b.due_date) {
        (Some(x), Some(y)) => text_less(x, y),
        (Some(_), None) => true,
        (None, Some(_)) => false,
        (None, None) => a.id < b.id,
    }
}

/// The display order is a strict order: never both ways, and transitive.
pub proof fn lemma_shown_before_strict(a: TaskView, b: TaskView, c: TaskView)
    ensures
        shown_before(a, b) ==> !shown_before(b, a),
        shown_before(a, b) && shown_before(b, c) ==> shown_before(a, c),
{
    match (a.due_date, b.due_date, c.due_date) {
        (Some(x), Some(y), Some(z)) => crate::text::lemma_text_less_strict(x, y, z),
        (Some(x), Some(y), None) => crate::text::lemma_text_less_strict(x, y, y),
        _ => {},
    }
}

/// No task of `s` is shown before one that stands ahead of it.
pub open spec fn is_listing_order(s: Seq<TaskView>) -> bool {
    forall|i: int, j: int| 0 <= i < j < s.len() ==> !shown_before(#[trigger] s[j], #[trigger] s[i])
}

proof fn lemma_insert_keeps_order(v: Seq<TaskView>, p: int, x: TaskView)
    requires
        is_listing_order(v),
        0 <= p <= v.len(),
        forall|k: int| 0 <= k < p ==> !shown_before(x, #[trigger] v[k]),
        p < v.len() ==> shown_before(x, v[p]),
    ensures
        is_listing_order(v.insert(p, x)),
{
    let n = v.insert(p, x);
    assert forall|i: int, j: int| 0 <= i < j < n.len() implies !shown_before(#[trigger] n[j], #[trigger] n[i]) by {
        if i == p {
            lemma_shown_before_strict(v[p], x, v[p]);
            if j - 1 > p {
                lemma_shown_before_strict(v[j - 1], x, v[p]);
                assert(!shown_before(v[j - 1], v[p]));
            }
        } else if j == p {
            assert(n[i] == v[i]);
        } else {
            let vi = if i < p { i } else { i - 1 };
            let vj = if j < p { j } else { j - 1 };
            assert(n[i] == v[vi] && n[j] == v[vj]);
        }
    }
}

/// Where `x` goes among the listed tasks `v`: before the first task it is
/// shown before, so after every task that it ties with; at the end if none.
pub open spec fn listing_slot(v: Seq<TaskView>, x: TaskView) -> int
    decreases v.len(),
{
    if v.len() == 0 {
        0
    } else if shown_before(x, v[0]) {
        0
    } else {
        1 + listing_slot(v.drop_first(), x)
    }
}

/// The tasks of `s` put in display order one at a time, each in its
/// `listing_slot`: tasks that tie keep the order they had in `s`.
pub open spec fn listing_sort(s: Seq<TaskView>) -> Seq<TaskView>
    decreases s.len(),
{
    if s.len() == 0 {
        s
    } else {
        let v = listing_sort(s.drop_last());
        v.insert(listing_slot(v, s.last()), s.last())
    }
}

/// The tasks in display order, as `listed_before` gives it; tasks that tie
/// keep their order.
pub fn sort_for_listing(tasks: Vec<Task>) -> (r: Vec<Task>)
    ensures
        tasks_view(r@) == listing_sort(tasks_view(tasks@)),
        tasks_view(r@).to_multiset() == tasks_view(tasks@).to_multiset(),
        is_listing_order(tasks_view(r@)),
{
    let mut out: Vec<Task> = Vec::new();
    let mut i: usize = 0;
    assert(tasks_view(tasks@.subrange(0, 0)) =~= Seq::<TaskView>::empty());
    assert(tasks_view(out@) =~= Seq::<TaskView>::empty());
    while i < tasks.len()
        invariant
            i <= tasks.len(),
            tasks_view(out@).to_multiset() == tasks_view(tasks@.subrange(0, i as int)).to_multiset(),
            is_listing_order(tasks_view(out@)),
            tasks_view(out@) == listing_sort(tasks_view(tasks@.subrange(0, i as int))),
        decreases tasks.len() - i,
    {
        let t = tasks[i].duplicate();
        let ghost v = tasks_view(out@);
        let mut p: usize = 0;
        assert(v.subrange(0, v.len() as int) =~= v);
        while p < out.len() && !listed_before(&t, &out[p])
            invariant
                p <= out.len(),
                v == tasks_view(out@),
                forall|k: int| 0 <= k < p ==> !shown_before(t@, #[trigger] tasks_view(out@)[k]),
                listing_slot(v, t@) == p + listing_slot(v.subrange(p as int, v.len() as int), t@),
            decreases out.len() - p,
        {
            assert(v.subrange(p as int, v.len() as int).drop_first() =~= v.subrange(p + 1, v.len() as int));
            p = p + 1;
        }
        proof {
            let sub = tasks_view(tasks@.subrange(0, i + 1));
            assert(sub.drop_last() =~= tasks_view(tasks@.subrange(0, i as int)));
            assert(sub.last() == t@);
            assert(listing_slot(v, t@) == p);
            lemma_insert_keeps_order(v, p as int, t@);
            assert(tasks_view(tasks@.subrange(0, i + 1)) =~= tasks_view(tasks@.subrange(0, i as int)).push(tasks@[i as int]@));
        }
        let ghost x = t@;
        out.insert(p, t);
        proof {
            assert(tasks_view(out@) =~= v.insert(p as int, x));
            vstd::seq_lib::to_multiset_insert(v, p as int, x);
            vstd::seq_lib::to_multiset_build(tasks_view(tasks@.subrange(0, i as int)), x);
        }
        i = i + 1;
    }
    assert(tasks@.subrange(0, i as int) =~= tasks@);
    out
}

/// The tasks with the pending ones first and the completed ones after them,
/// each in list order.
pub fn pending_first(tasks: &Vec<Task>) -> (r: Vec<Task>)
    ensures
        tasks_view(r@) == tasks_view(tasks@).filter(|t: TaskView| !t.done) + tasks_view(tasks@).filter(
            |t: TaskView| t.done,
        ),
{
    let ghost open_ones = |t: TaskView| !t.done;
    let ghost done_ones = |t: TaskView| t.done;
    let mut first: Vec<Task> = Vec::new();
    let mut last: Vec<Task> = Vec::new();
    let mut i: usize = 0;
    while i < tasks.len()
        invariant
            i <= tasks.len(),
            open_ones == (|t: TaskView| !t.done),
            done_ones == (|t: TaskView| t.done),
            tasks_view(first@) == tasks_view(tasks@.subrange(0, i as int)).filter(open_ones),
            tasks_view(last@) == tasks_view(tasks@.subrange(0, i as int)).filter(done_ones),
        decreases tasks.len() - i,
    {
        proof {
            lemma_filter_step(tasks@, i as int, open_ones);
            lemma_filter_step(tasks@, i as int, done_ones);
        }
        let t = tasks[i].duplicate();
        if t.done {
            proof {
                lemma_view_push(last@, t);
            }
            last.push(t);
        } else {
            proof {
                lemma_view_push(first@, t);
            }
            first.push(t);
        }
        i = i + 1;
    }
    proof {
        lemma_filter_done(tasks@, open_ones);
        lemma_filter_done(tasks@, done_ones);
    }
    let ghost a = first@;
    let ghost b = last@;
    first.append(&mut last);
    assert(tasks_view(first@) =~= tasks_view(a) + tasks_view(b));
    first
}

/// Whether `a` is listed before `b`.
pub fn listed_before(a: &Task, b: &Task) -> (r: bool)
    ensures
        r == shown_before(a@, b@),
{
    match (&a.due_date, &b.due_date) {
        (Some(x), Some(y)) => less_than(x.as_str(), y.as_str()),
        (Some(_), None) => true,
        (None, Some(_)) => false,
        (None, None) => a.id < b.id,
    }
}

/// `s` without the white space at its start and end.
pub open spec fn trimmed(s: Seq<char>) -> Seq<char>
    decreases s.len(),
{
    if s.len() > 0 && crate::text::is_white_space(s[0]) {
        trimmed(s.drop_first())
    } else if s.len() > 0 && crate::text::is_white_space(s.last()) {
        trimmed(s.drop_last())
    } else {
        s
    }
}

/// An answer to a yes/no question accepts when, without surrounding white
/// space and in lower case, it reads `y` or `yes`.
pub open spec fn is_yes(answer: Seq<char>) -> bool {
    lower_of(trimmed(answer)) == "y"@ || lower_of(trimmed(answer)) == "yes"@
}

fn trim_chars(v: &Vec<char>) -> (r: Vec<char>)
    ensures
        r@ == trimmed(v@),
{
    let mut lo: usize = 0;
    let mut hi: usize = v.len();
    assert(v@.subrange(0, v.len() as int) =~= v@);
    while lo < hi
        invariant
            lo <= hi <= v.len(),
            trimmed(v@) == trimmed(v@.subrange(lo as int, hi as int)),
        ensures
            lo <= hi <= v.len(),
            trimmed(v@) == v@.subrange(lo as int, hi as int),
        decreases hi - lo,
    {
        let ghost s = v@.subrange(lo as int, hi as int);
        if crate::text::char_is_whitespace(v[lo]) {
            assert(s.drop_first() =~= v@.subrange(lo + 1, hi as int));
            lo = lo + 1;
        } else if crate::text::char_is_whitespace(v[hi - 1]) {
            assert(s.drop_last() =~= v@.subrange(lo as int, hi - 1));
            hi = hi - 1;
        } else {
            assert(s[0] == v@[lo as int] && s.last() == v@[hi - 1]);
            break;
        }
    }
    let mut out: Vec<char> = Vec::new();
    let mut k: usize = lo;
    while k < hi
        invariant
            lo <= k <= hi <= v.len(),
            out@ == v@.subrange(lo as int, k as int),
        decreases hi - k,
    {
        out.push(v[k]);
        assert(v@.subrange(lo as int, k + 1) =~= v@.subrange(lo as int, k as int).push(v@[k as int]));
        k = k + 1;
    }
    out
}

/// Whether an answer to a yes/no question accepts.
pub fn answer_is_yes(answer: &str) -> (r: bool)
    ensures
        r == is_yes(answer@),
{
    let t = crate::text::string_of_chars(&trim_chars(&chars_of(answer)));
    let folded = lowercase(t.as_str());
    proof {
        assert(t@ == trimmed(answer@));
    }
    crate::text::same_text(folded.as_str(), "y") || crate::text::same_text(folded.as_str(), "yes")
}

/// The characters of `s` before its first `-` (all of them when there is none).
pub open spec fn up_to_hyphen(s: Seq<char>) -> Seq<char>
    decreases s.len(),
{
    if s.len() == 0 || s[0] == '-' {
        Seq::empty()
    } else {
        seq![s[0]] + up_to_hyphen(s.drop_first())
    }
}

/// The characters of `s` after its first `-`, if it has one.
pub open spec fn after_hyphen(s: Seq<char>) -> Option<Seq<char>>
    decreases s.len(),
{
    if s.len() == 0 {
        None
    } else if s[0] == '-' {
        Some(s.drop_first())
    } else {
        after_hyphen(s.drop_first())
    }
}

/// The month a listing files a task under: `YEAR-MONTH` from the first two
/// fields of its due date, `0000-00` for a task without one.
pub open spec fn month_group_of(due: Option<Seq<char>>) -> Seq<char> {
    match due {
        None => "0000-00"@,
        Some(d) => up_to_hyphen(d) + "-"@ + match after_hyphen(d) {
            Some(rest) => up_to_hyphen(rest),
            None => "00"@,
        },
    }
}

proof fn lemma_split_at_hyphen(s: Seq<char>, i: int)
    requires
        0 <= i <= s.len(),
        forall|k: int| 0 <= k < i ==> s[k] != '-',
        i < s.len() ==> s[i] == '-',
    ensures
        up_to_hyphen(s) == s.subrange(0, i),
        after_hyphen(s) == if i < s.len() {
            Some(s.subrange(i + 1, s.len() as int))
        } else {
            None::<Seq<char>>
        },
    decreases i,
{
    if i > 0 {
        let t = s.drop_first();
        lemma_split_at_hyphen(t, i - 1);
        assert(seq![s[0]] + t.subrange(0, i - 1) =~= s.subrange(0, i));
        if i < s.len() {
            assert(t.subrange(i, t.len() as int) =~= s.subrange(i + 1, s.len() as int));
        }
    } else {
        if s.len() > 0 {
            assert(s.drop_first() =~= s.subrange(1, s.len() as int));
        }
        assert(s.subrange(0, 0) =~= Seq::<char>::empty());
    }
}

/// Position of the first `-` of `v` at or after `from`, or `v.len()`.
fn hyphen_at_or_after(v: &Vec<char>, from: usize) -> (r: usize)
    requires
        from <= v.len(),
    ensures
        from <= r <= v.len(),
        forall|k: int| from <= k < r ==> v@[k] != '-',
        r < v.len() ==> v@[r as int] == '-',
{
    let mut i = from;
    while i < v.len() && v[i] != '-'
        invariant
            from <= i <= v.len(),
            forall|k: int| from <= k < i ==> v@[k] != '-',
        decreases v.len() - i,
    {
        i = i + 1;
    }
    i
}

fn chars_between(v: &Vec<char>, lo: usize, hi: usize) -> (r: Vec<char>)
    requires
        lo <= hi <= v.len(),
    ensures
        r@ == v@.subrange(lo as int, hi as int),
{
    let mut out: Vec<char> = Vec::new();
    let mut k = lo;
    while k < hi
        invariant
            lo <= k <= hi <= v.len(),
            out@ == v@.subrange(lo as int, k as int),
        decreases hi - k,
    {
        out.push(v[k]);
        assert(v@.subrange(lo as int, k + 1) =~= v@.subrange(lo as int, k as int).push(v@[k as int]));
        k = k + 1;
    }
    out
}

/// The month a listing files a task under.
pub fn month_group(due: &Option<String>) -> (r: String)
    ensures
        r@ == month_group_of(crate::task::text_view(*due)),
{
    match due {
        None => String::from_str("0000-00"),
        Some(d) => {
            let v = chars_of(d.as_str());
            let first = hyphen_at_or_after(&v, 0);
            proof {
                lemma_split_at_hyphen(v@, first as int);
            }
            let mut out = crate::text::string_of_chars(&chars_between(&v, 0, first));
            crate::text::append_str(&mut out, "-");
            if first < v.len() {
                let rest = chars_between(&v, first + 1, v.len());
                let second = hyphen_at_or_after(&rest, 0);
                proof {
                    lemma_split_at_hyphen(rest@, second as int);
                }
                crate::text::append_str(&mut out, crate::text::string_of_chars(&chars_between(&rest, 0, second)).as_str());
            } else {
                crate::text::append_str(&mut out, "00");
            }
            out
        },
    }
}

/// The short English name of a month written as two digits, `???` for
/// anything else.
pub open spec fn month_name_of(m: Seq<char>) -> Seq<char> {
    if m == "01"@ {
        "Jan"@
    } else if m == "02"@ {
        "Feb"@
    } else if m == "03"@ {
        "Mar"@
    } else if m == "04"@ {
        "Apr"@
    } else if m == "05"@ {
        "May"@
    } else if m == "06"@ {
        "Jun"@
    } else if m == "07"@ {
        "Jul"@
    } else if m == "08"@ {
        "Aug"@
    } else if m == "09"@ {
        "Sep"@
    } else if m == "10"@ {
        "Oct"@
    } else if m == "11"@ {
        "Nov"@
    } else if m == "12"@ {
        "Dec"@
    } else {
        "???"@
    }
}

/// The short English name of a month written as two digits.
pub fn month_name(m: &str) -> (r: String)
    ensures
        r@ == month_name_of(m@),
{
    let same = |t: &str| -> (b: bool)
        ensures
            b == (m@ == t@),
        { crate::text::same_text(m, t) };
    if same("01") {
        String::from_str("Jan")
    } else if same("02") {
        String::from_str("Feb")
    } else if same("03") {
        String::from_str("Mar")
    } else if same("04") {
        String::from_str("Apr")
    } else if same("05") {
        String::from_str("May")
    } else if same("06") {
        String::from_str("Jun")
    } else if same("07") {
        String::from_str("Jul")
    } else if same("08") {
        String::from_str("Aug")
    } else if same("09") {
        String::from_str("Sep")
    } else if same("10") {
        String::from_str("Oct")
    } else if same("11") {
        String::from_str("Nov")
    } else if same("12") {
        String::from_str("Dec")
    } else {
        String::from_str("???")
    }
}

/// What archiving by age does with the split list once the user answered:
/// with some older tasks and an accepting answer, archive the older tasks and
/// keep the rest (`Some`); otherwise change nothing (`None`). With no older
/// task there is nothing to ask.
pub fn confirm_archive(answer: &str, kept: Vec<Task>, older: Vec<Task>) -> (r: Option<(Vec<Task>, Vec<Task>)>)
    ensures
        r is Some <==> older@.len() > 0 && is_yes(answer@),
        r matches Some(p) ==> p.0@ == kept@ && p.1@ == older@,
{
    if older.len() > 0 && answer_is_yes(answer) {
        Some((kept, older))
    } else {
        None
    }
}

} // verus!
