use vstd::prelude::*;
use crate::task::{Task, TaskError, TaskView, tasks_view};

verus! {

/// A JSON number as the task record reads it: a whole number, or one with a
/// fraction or exponent, whose value no field of a task can hold.
#[derive(Debug, Clone, Copy, PartialEq, Eq, Structural)]
pub enum JsonNumber {
    PosInt(u64),
    NegInt(i64),
    Float,
}

/// A JSON document as plain values; an object keeps its members in order.
#[derive(Debug)]
pub enum Json {
    Null,
    Bool(bool),
    Number(JsonNumber),
    Str(String),
    Array(Vec<Json>),
    Object(Vec<(String, Json)>),
}

/// The value of the first member of `members` named `key`.
pub open spec fn member(members: Seq<(String, Json)>, key: Seq<char>) -> Option<Json>
    decreases members.len(),
{
    if members.len() == 0 {
        None
    } else if members[0].0@ == key {
        Some(members[0].1)
    } else {
        member(members.drop_first(), key)
    }
}

/// A task id read from a JSON value: a whole number that fits in `u32`.
pub open spec fn id_of(j: Json) -> Option<u32> {
    match j {
        Json::Number(JsonNumber::PosInt(n)) => if n <= u32::MAX {
            Some(n as u32)
        } else {
            None
        },
        _ => None,
    }
}

/// The due date of a task read from its member, if any: a missing member or
/// `null` is no due date, a string is the date.
pub open spec fn due_of(j: Option<Json>) -> Option<Option<Seq<char>>> {
    match j {
        None => Some(None),
        Some(Json::Null) => Some(None),
        Some(Json::Str(s)) => Some(Some(s@)),
        _ => None,
    }
}

/// A task read from a JSON object with members `id`, `text`, `done` and an
/// optional `due_date`; other members are ignored.
pub open spec fn task_of_json(j: Json) -> Option<TaskView> {
    match j {
        Json::Object(ms) => {
            let members = ms@;
            match (member(members, "id"@), member(members, "text"@), member(members, "done"@)) {
                (Some(i), Some(Json::Str(t)), Some(Json::Bool(b))) => match (
                    id_of(i),
                    due_of(member(members, "due_date"@)),
                ) {
                    (Some(id), Some(due)) => Some(
                        TaskView { id, text: t@, done: b, due_date: due },
                    ),
                    _ => None,
                },
                _ => None,
            }
        },
        _ => None,
    }
}

/// A task list read from a JSON array of task objects.
pub open spec fn tasks_of_json(j: Json) -> Option<Seq<TaskView>> {
    match j {
        Json::Array(items) => if forall|i: int|
            0 <= i < items@.len() ==> (#[trigger] task_of_json(items@[i])) is Some {
            Some(items@.map_values(|x: Json| task_of_json(x)->0))
        } else {
            None
        },
        _ => None,
    }
}

fn find_member<'a>(members: &'a Vec<(String, Json)>, key: &str) -> (r: Option<&'a Json>)
    ensures
        match r {
            Some(v) => member(members@, key@) == Some(*v),
            None => member(members@, key@) is None,
        },
{
    assert(members@.subrange(0, members@.len() as int) =~= members@);
    let mut i: usize = 0;
    while i < members.len()
        invariant
            i <= members.len(),
            member(members@, key@) == member(members@.subrange(i as int, members@.len() as int), key@),
        decreases members.len() - i,
    {
        let ghost rest = members@.subrange(i as int, members@.len() as int);
        assert(rest.drop_first() =~= members@.subrange(i + 1, members@.len() as int));
        if crate::text::same_text(members[i].0.as_str(), key) {
            return Some(&members[i].1);
        }
        i = i + 1;
    }
    None
}

fn invalid(msg: &str) -> (r: TaskError)
    ensures
        r is InvalidInput,
{
    TaskError::InvalidInput(String::from_str(msg))
}

/// Reads one task from its JSON object.
pub fn decode_task(j: &Json) -> (r: Result<Task, TaskError>)
    ensures
        match r {
            Ok(t) => task_of_json(*j) == Some(t@),
            Err(e) => task_of_json(*j) is None && e is InvalidInput,
        },
{
    proof {
        reveal_strlit("id");
        reveal_strlit("text");
        reveal_strlit("done");
        reveal_strlit("due_date");
    }
    let members = match j {
        Json::Object(ms) => ms,
        _ => {
            return Err(invalid("a task must be a JSON object"));
        },
    };
    let id = match find_member(members, "id") {
        Some(Json::Number(JsonNumber::PosInt(n))) => {
            if *n > u32::MAX as u64 {
                return Err(invalid("task id out of range"));
            }
            *n as u32
        },
        _ => {
            return Err(invalid("task id missing or not a whole number"));
        },
    };
    let text = match find_member(members, "text") {
        Some(Json::Str(s)) => s.clone(),
        _ => {
            return Err(invalid("task text missing or not a string"));
        },
    };
    let done = match find_member(members, "done") {
        Some(Json::Bool(b)) => *b,
        _ => {
            return Err(invalid("task done flag missing or not a boolean"));
        },
    };
    let due_date = match find_member(members, "due_date") {
        None => None,
        Some(Json::Null) => None,
        Some(Json::Str(s)) => Some(s.clone()),
        _ => {
            return Err(invalid("task due date not a string"));
        },
    };
    Ok(Task { id, text, done, due_date })
}

/// Reads a task list from a JSON array of task objects.
pub fn decode_tasks(j: &Json) -> (r: Result<Vec<Task>, TaskError>)
    ensures
        r is Ok <==> tasks_of_json(*j) is Some,
        r matches Ok(ts) ==> tasks_of_json(*j) == Some(tasks_view(ts@)),
        r matches Err(e) ==> e is InvalidInput,
{
    match j {
        Json::Array(items) => {
            let mut out: Vec<Task> = Vec::new();
            let mut i: usize = 0;
            while i < items.len()
                invariant
                    *j is Array,
                    j->Array_0 == *items,
                    i <= items.len(),
                    out@.len() == i,
                    forall|k: int| 0 <= k < i ==> task_of_json(#[trigger] items@[k]) == Some(out@[k]@),
                decreases items.len() - i,
            {
                match decode_task(&items[i]) {
                    Ok(t) => {
                        out.push(t);
                    },
                    Err(e) => {
                        assert(task_of_json(items@[i as int]) is None);
                        assert(!(forall|k: int| 0 <= k < items@.len() ==> (#[trigger] task_of_json(items@[k])) is Some));
                        return Err(e);
                    },
                }
                i = i + 1;
            }
            assert(items@.map_values(|x: Json| task_of_json(x)->0) =~= tasks_view(out@));
            Ok(out)
        },
        _ => Err(invalid("the task list must be a JSON array")),
    }
}

/// `j` is a JSON string holding `s`.
pub open spec fn is_str(j: Json, s: Seq<char>) -> bool {
    match j {
        Json::Str(x) => x@ == s,
        _ => false,
    }
}

/// `j` is an object with a member named `key`.
pub open spec fn has_key(j: Json, key: Seq<char>) -> bool {
    match j {
        Json::Object(ms) => exists|k: int| 0 <= k < ms@.len() && (#[trigger] ms@[k]).0@ == key,
        _ => false,
    }
}

/// `j` is the JSON object written for task `t`: members `id`, `text`,
/// `done`, then `due_date` only when the task has a due date.
pub open spec fn is_task_object(j: Json, t: TaskView) -> bool {
    match j {
        Json::Object(ms) => {
            let m = ms@;
            &&& m.len() == if t.due_date is Some { 4int } else { 3int }
            &&& m[0].0@ == "id"@ && m[0].1 == Json::Number(JsonNumber::PosInt(t.id as u64))
            &&& m[1].0@ == "text"@ && is_str(m[1].1, t.text)
            &&& m[2].0@ == "done"@ && m[2].1 == Json::Bool(t.done)
            &&& t.due_date matches Some(d) ==> m[3].0@ == "due_date"@ && is_str(m[3].1, d)
        },
        _ => false,
    }
}

/// `j` is the JSON array written for the task list `ts`.
pub open spec fn is_task_list_json(j: Json, ts: Seq<TaskView>) -> bool {
    match j {
        Json::Array(items) => items@.len() == ts.len() && forall|i: int|
            0 <= i < ts.len() ==> #[trigger] is_task_object(items@[i], ts[i]),
        _ => false,
    }
}

fn str_value(s: &str) -> (r: String)
    ensures
        r@ == s@,
{
    String::from_str(s)
}

/// The JSON object for one task.
pub fn encode_task(t: &Task) -> (r: Json)
    ensures
        is_task_object(r, t@),
{
    proof {
        reveal_strlit("id");
        reveal_strlit("text");
        reveal_strlit("done");
        reveal_strlit("due_date");
    }
    let mut ms: Vec<(String, Json)> = Vec::new();
    ms.push((str_value("id"), Json::Number(JsonNumber::PosInt(t.id as u64))));
    ms.push((str_value("text"), Json::Str(t.text.clone())));
    ms.push((str_value("done"), Json::Bool(t.done)));
    match &t.due_date {
        Some(d) => {
            ms.push((str_value("due_date"), Json::Str(d.clone())));
        },
        None => {},
    }
    Json::Object(ms)
}

/// The JSON array for a task list.
pub fn encode_tasks(tasks: &Vec<Task>) -> (r: Json)
    ensures
        is_task_list_json(r, tasks_view(tasks@)),
{
    let mut items: Vec<Json> = Vec::new();
    let mut i: usize = 0;
    while i < tasks.len()
        invariant
            i <= tasks.len(),
            items@.len() == i,
            forall|k: int| 0 <= k < i ==> #[trigger] is_task_object(items@[k], tasks@[k]@),
        decreases tasks.len() - i,
    {
        items.push(encode_task(&tasks[i]));
        i = i + 1;
    }
    Json::Array(items)
}

proof fn lemma_task_object_reads_back(j: Json, t: TaskView)
    requires
        is_task_object(j, t),
    ensures
        task_of_json(j) == Some(t),
        t.due_date is None ==> !has_key(j, "due_date"@),
{
    reveal_strlit("id");
    reveal_strlit("text");
    reveal_strlit("done");
    reveal_strlit("due_date");
    if let Json::Object(ms) = j {
        let m = ms@;
        let m1 = m.drop_first();
        let m2 = m1.drop_first();
        let m3 = m2.drop_first();
        assert(m1[0] == m[1]);
        assert(m2[0] == m[2]);
        assert("id"@ != "text"@ && "id"@ != "done"@ && "id"@ != "due_date"@) by {
            assert("id"@.len() == 2 && "text"@.len() == 4 && "due_date"@.len() == 8);
        }
        assert("text"@ != "done"@ && "text"@ != "due_date"@) by {
            assert("text"@[0] != "done"@[0]);
        }
        assert("done"@ != "due_date"@) by {
            assert("done"@.len() != "due_date"@.len());
        }
        assert(member(m, "id"@) == Some(m[0].1));
        assert(member(m1, "text"@) == Some(m[1].1));
        assert(member(m, "text"@) == Some(m[1].1));
        assert(member(m2, "done"@) == Some(m[2].1));
        assert(member(m1, "done"@) == Some(m[2].1));
        assert(member(m, "done"@) == Some(m[2].1));
        assert(member(m2, "due_date"@) == member(m3, "due_date"@));
        assert(member(m1, "due_date"@) == member(m3, "due_date"@));
        if t.due_date is Some {
            assert(m3[0] == m[3]);
            assert(member(m3, "due_date"@) == Some(m[3].1));
        } else {
            assert(m3.len() == 0);
        }
        assert(member(m, "due_date"@) == member(m3, "due_date"@));
        if t.due_date is None {
            assert forall|k: int| 0 <= k < m.len() implies (#[trigger] m[k]).0@ != "due_date"@ by {
                assert(k == 0 || k == 1 || k == 2);
            }
        }
    }
}

/// Reading back the JSON written for a task list gives that task list, and a
/// task without a due date is written without a `due_date` member.
pub proof fn lemma_round_trip(j: Json, ts: Seq<TaskView>)
    requires
        is_task_list_json(j, ts),
    ensures
        tasks_of_json(j) == Some(ts),
        forall|i: int|
            0 <= i < ts.len() && ts[i].due_date is None ==> !has_key(
                #[trigger] j->Array_0@[i],
                "due_date"@,
            ),
{
    reveal_strlit("id");
    reveal_strlit("text");
    reveal_strlit("done");
    reveal_strlit("due_date");
    if let Json::Array(items) = j {
        assert forall|i: int| 0 <= i < items@.len() implies (#[trigger] task_of_json(
            items@[i],
        )) == Some(ts[i]) by {
            lemma_task_object_reads_back(items@[i], ts[i]);
        }
        assert forall|i: int| 0 <= i < ts.len() && ts[i].due_date is None implies !has_key(
            #[trigger] items@[i],
            "due_date"@,
        ) by {
            lemma_task_object_reads_back(items@[i], ts[i]);
        }
        assert(items@.map_values(|x: Json| task_of_json(x)->0) =~= ts);
    }
}

} // verus!
