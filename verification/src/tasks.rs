//! Scheduled tasks: the stored records of the task runner and the pure
//! decisions it makes. The runner itself (timers, the outside calls a task
//! triggers) lives in the hosting layer; everything here is plain list
//! manipulation and the due/dispatch decisions.

use vstd::prelude::*;

verus! {

/// One stored task.
pub struct Task {
    pub id: u64,
    pub data: String,
    pub frequency: u64,
    pub last_run: u64,
    pub url: Option<String>,
    pub action_type: String,
    pub enabled: bool,
}

/// The mathematical content of a task.
pub struct TaskV {
    pub id: u64,
    pub data: Seq<char>,
    pub frequency: u64,
    pub last_run: u64,
    pub url: Option<Seq<char>>,
    pub action_type: Seq<char>,
    pub enabled: bool,
}

/// The view of an optional text.
pub open spec fn opt_str_view(s: Option<String>) -> Option<Seq<char>> {
    match s {
        Some(v) => Some(v@),
        None => None,
    }
}

impl View for Task {
    type V = TaskV;

    open spec fn view(&self) -> TaskV {
        TaskV {
            id: self.id,
            data: self.data@,
            frequency: self.frequency,
            last_run: self.last_run,
            url: opt_str_view(self.url),
            action_type: self.action_type@,
            enabled: self.enabled,
        }
    }
}

impl Clone for Task {
    fn clone(&self) -> (r: Self)
        ensures
            r@ == self@,
    {
        Task {
            id: self.id,
            data: self.data.clone(),
            frequency: self.frequency,
            last_run: self.last_run,
            url: match &self.url {
                Some(u) => Some(u.clone()),
                None => None,
            },
            action_type: self.action_type.clone(),
            enabled: self.enabled,
        }
    }
}

/// The views of a task list.
pub open spec fn task_views(s: Seq<Task>) -> Seq<TaskV> {
    s.map(|i: int, t: Task| t@)
}

/// Whether task ids are pairwise distinct.
pub open spec fn task_ids_distinct(s: Seq<Task>) -> bool {
    forall|i: int, j: int| 0 <= i < j < s.len() ==> s[i].id != s[j].id
}

/// Whether some task carries `id`.
pub open spec fn has_task_id(s: Seq<Task>, id: u64) -> bool {
    exists|i: int| 0 <= i < s.len() && s[i].id == id
}

/// The highest id held by any task; zero when there is none.
pub open spec fn max_task_id(s: Seq<Task>) -> u64
    decreases s.len(),
{
    if s.len() == 0 {
        0
    } else {
        let m = max_task_id(s.drop_last());
        if s.last().id > m {
            s.last().id
        } else {
            m
        }
    }
}

/// Whether some task carries `id`.
pub fn has_task(tasks: &Vec<Task>, id: u64) -> (r: bool)
    ensures
        r == has_task_id(tasks@, id),
{
    let n = tasks.len();
    let mut i: usize = 0;
    while i < n
        invariant
            i <= n,
            n == tasks@.len(),
            forall|j: int| 0 <= j < i ==> tasks@[j].id != id,
        decreases n - i,
    {
        if tasks[i].id == id {
            return true;
        }
        i = i + 1;
    }
    false
}

/// The highest id held by any task; zero when there is none.
pub fn highest_task_id(tasks: &Vec<Task>) -> (r: u64)
    ensures
        r == max_task_id(tasks@),
{
    let n = tasks.len();
    let mut m: u64 = 0;
    proof {
        assert(tasks@.take(0) =~= Seq::<Task>::empty());
    }
    let mut i: usize = 0;
    while i < n
        invariant
            i <= n,
            n == tasks@.len(),
            m == max_task_id(tasks@.take(i as int)),
        decreases n - i,
    {
        proof {
            let t = tasks@.take(i + 1);
            assert(t.drop_last() =~= tasks@.take(i as int));
            assert(t.last() == tasks@[i as int]);
        }
        if tasks[i].id > m {
            m = tasks[i].id;
        }
        i = i + 1;
    }
    proof {
        assert(tasks@.take(n as int) =~= tasks@);
    }
    m
}

/// Appends a task, rejecting a duplicate id; the list is left unchanged on
/// rejection.
pub fn add_task(tasks: &mut Vec<Task>, task: Task) -> (r: bool)
    requires
        task_ids_distinct(old(tasks)@),
    ensures
        task_ids_distinct(final(tasks)@),
        has_task_id(old(tasks)@, task.id) ==> r == false && final(tasks)@ == old(tasks)@,
        !has_task_id(old(tasks)@, task.id) ==> r == true && final(tasks)@ == old(tasks)@.push(
            task,
        ),
{
    if has_task(tasks, task.id) {
        return false;
    }
    let ghost pre = tasks@;
    tasks.push(task);
    proof {
        assert(forall|k: int| 0 <= k < pre.len() ==> tasks@[k] == pre[k]);
        assert(forall|i: int, j: int|
            0 <= i < j < tasks@.len() ==> tasks@[i].id != tasks@[j].id);
    }
    true
}

/// Appends a custom one-shot task under the given id (the hosting layer
/// aborts on a duplicate).
pub fn create_task(tasks: &mut Vec<Task>, id: u64, data: String, frequency: u64) -> (r: bool)
    requires
        task_ids_distinct(old(tasks)@),
    ensures
        task_ids_distinct(final(tasks)@),
        has_task_id(old(tasks)@, id) ==> r == false && final(tasks)@ == old(tasks)@,
        !has_task_id(old(tasks)@, id) ==> r == true && {
            &&& final(tasks)@.len() == old(tasks)@.len() + 1
            &&& final(tasks)@.subrange(0, old(tasks)@.len() as int) == old(tasks)@
            &&& final(tasks)@.last()@ == (TaskV {
                id,
                data: data@,
                frequency,
                last_run: 0,
                url: None,
                action_type: "custom"@,
                enabled: true,
            })
        },
{
    let task = Task {
        id,
        data,
        frequency,
        last_run: 0,
        url: None,
        action_type: "custom".to_owned(),
        enabled: true,
    };
    let r = add_task(tasks, task);
    proof {
        if !has_task_id(old(tasks)@, id) {
            assert(final(tasks)@.subrange(0, old(tasks)@.len() as int) =~= old(tasks)@);
        }
    }
    r
}

/// Appends a task, assigning the next free id when the requested id is
/// zero, and returns the id actually used; `None` on a duplicate.
pub fn create_task_complete(
    tasks: &mut Vec<Task>,
    id: u64,
    data: String,
    frequency: u64,
    url: Option<String>,
    action_type: String,
) -> (r: Option<u64>)
    requires
        task_ids_distinct(old(tasks)@),
        id == 0 ==> max_task_id(old(tasks)@) < u64::MAX,
    ensures
        task_ids_distinct(final(tasks)@),
        ({
            let actual = if id == 0 {
                (max_task_id(old(tasks)@) + 1) as u64
            } else {
                id
            };
            if has_task_id(old(tasks)@, actual) {
                r is None && final(tasks)@ == old(tasks)@
            } else {
                &&& r == Some(actual)
                &&& final(tasks)@.len() == old(tasks)@.len() + 1
                &&& final(tasks)@.subrange(0, old(tasks)@.len() as int) == old(tasks)@
                &&& final(tasks)@.last()@ == (TaskV {
                    id: actual,
                    data: data@,
                    frequency,
                    last_run: 0,
                    url: opt_str_view(url),
                    action_type: action_type@,
                    enabled: true,
                })
            }
        }),
{
    let actual: u64 = if id == 0 {
        highest_task_id(tasks) + 1
    } else {
        id
    };
    let task = Task { id: actual, data, frequency, last_run: 0, url, action_type, enabled: true };
    let added = add_task(tasks, task);
    proof {
        if !has_task_id(old(tasks)@, actual) {
            assert(final(tasks)@.subrange(0, old(tasks)@.len() as int) =~= old(tasks)@);
        }
    }
    if added {
        Some(actual)
    } else {
        None
    }
}

/// The task stored under `id`, copied out.
pub fn get_task(tasks: &Vec<Task>, id: u64) -> (r: Option<Task>)
    requires
        task_ids_distinct(tasks@),
    ensures
        !has_task_id(tasks@, id) ==> r is None,
        has_task_id(tasks@, id) ==> (r matches Some(t) && forall|i: int|
            0 <= i < tasks@.len() && tasks@[i].id == id ==> t@ == tasks@[i]@),
{
    let n = tasks.len();
    let mut i: usize = 0;
    while i < n
        invariant
            i <= n,
            n == tasks@.len(),
            task_ids_distinct(tasks@),
            forall|j: int| 0 <= j < i ==> tasks@[j].id != id,
        decreases n - i,
    {
        if tasks[i].id == id {
            let t = tasks[i].clone();
            proof {
                assert forall|k: int|
                    0 <= k < tasks@.len() && tasks@[k].id == id implies k == i by {
                    if k > i {
                        assert(tasks@[i as int].id != tasks@[k].id);
                    }
                }
            }
            return Some(t);
        }
        i = i + 1;
    }
    None
}

/// A copy of every task, in order.
pub fn get_tasks(tasks: &Vec<Task>) -> (r: Vec<Task>)
    ensures
        r@.len() == tasks@.len(),
        forall|i: int| 0 <= i < r@.len() ==> (#[trigger] r@[i])@ == tasks@[i]@,
{
    let n = tasks.len();
    let mut r: Vec<Task> = Vec::new();
    let mut i: usize = 0;
    while i < n
        invariant
            i <= n,
            n == tasks@.len(),
            r@.len() == i,
            forall|j: int| 0 <= j < i ==> (#[trigger] r@[j])@ == tasks@[j]@,
        decreases n - i,
    {
        let t = tasks[i].clone();
        r.push(t);
        i = i + 1;
    }
    r
}

/// How a task changes under an update request: each supplied field
/// replaces the stored one; the id and the last run time stay.
pub open spec fn task_updated(
    t: TaskV,
    data: Option<Seq<char>>,
    frequency: Option<u64>,
    url: Option<Seq<char>>,
    action_type: Option<Seq<char>>,
    enabled: Option<bool>,
) -> TaskV {
    TaskV {
        id: t.id,
        data: match data {
            Some(d) => d,
            None => t.data,
        },
        frequency: match frequency {
            Some(f) => f,
            None => t.frequency,
        },
        last_run: t.last_run,
        url: match url {
            Some(u) => Some(u),
            None => t.url,
        },
        action_type: match action_type {
            Some(a) => a,
            None => t.action_type,
        },
        enabled: match enabled {
            Some(e) => e,
            None => t.enabled,
        },
    }
}

/// Rewrites the task stored under `id` field by field from the supplied
/// options; the list is unchanged when the id is unknown.
pub fn update_task(
    tasks: &mut Vec<Task>,
    id: u64,
    data: Option<String>,
    frequency: Option<u64>,
    url: Option<String>,
    action_type: Option<String>,
    enabled: Option<bool>,
) -> (r: bool)
    requires
        task_ids_distinct(old(tasks)@),
    ensures
        task_ids_distinct(final(tasks)@),
        r == has_task_id(old(tasks)@, id),
        final(tasks)@.len() == old(tasks)@.len(),
        forall|i: int|
            0 <= i < old(tasks)@.len() && old(tasks)@[i].id != id
                ==> final(tasks)@[i] == old(tasks)@[i],
        forall|i: int|
            0 <= i < old(tasks)@.len() && old(tasks)@[i].id == id
                ==> (#[trigger] final(tasks)@[i])@ == task_updated(
                old(tasks)@[i]@,
                opt_str_view(data),
                frequency,
                opt_str_view(url),
                opt_str_view(action_type),
                enabled,
            ),
{
    let n = tasks.len();
    let mut i: usize = 0;
    while i < n
        invariant
            i <= n,
            n == tasks@.len(),
            tasks@ == old(tasks)@,
            task_ids_distinct(tasks@),
            forall|j: int| 0 <= j < i ==> tasks@[j].id != id,
        decreases n - i,
    {
        if tasks[i].id == id {
            let updated = Task {
                id: tasks[i].id,
                data: match data {
                    Some(d) => d,
                    None => tasks[i].data.clone(),
                },
                frequency: match frequency {
                    Some(f) => f,
                    None => tasks[i].frequency,
                },
                last_run: tasks[i].last_run,
                url: match url {
                    Some(u) => Some(u),
                    None => match &tasks[i].url {
                        Some(u) => Some(u.clone()),
                        None => None,
                    },
                },
                action_type: match action_type {
                    Some(a) => a,
                    None => tasks[i].action_type.clone(),
                },
                enabled: match enabled {
                    Some(e) => e,
                    None => tasks[i].enabled,
                },
            };
            tasks.set(i, updated);
            proof {
                assert(forall|k: int|
                    0 <= k < tasks@.len() ==> tasks@[k].id == old(tasks)@[k].id);
                assert(forall|k: int|
                    0 <= k < old(tasks)@.len() && old(tasks)@[k].id == id ==> k == i);
            }
            return true;
        }
        i = i + 1;
    }
    false
}

/// Removes the task stored under `id`; the list is unchanged when the id
/// is unknown.
pub fn delete_task(tasks: &mut Vec<Task>, id: u64) -> (r: bool)
    requires
        task_ids_distinct(old(tasks)@),
    ensures
        task_ids_distinct(final(tasks)@),
        r == has_task_id(old(tasks)@, id),
        !has_task_id(old(tasks)@, id) ==> final(tasks)@ == old(tasks)@,
        has_task_id(old(tasks)@, id) ==> exists|i: int|
            0 <= i < old(tasks)@.len() && old(tasks)@[i].id == id && final(tasks)@ == old(
                tasks,
            )@.remove(i),
{
    let n = tasks.len();
    let mut i: usize = 0;
    while i < n
        invariant
            i <= n,
            n == tasks@.len(),
            tasks@ == old(tasks)@,
            task_ids_distinct(tasks@),
            forall|j: int| 0 <= j < i ==> tasks@[j].id != id,
        decreases n - i,
    {
        if tasks[i].id == id {
            let ghost pre = tasks@;
            tasks.remove(i);
            proof {
                assert(pre[i as int].id == id);
                assert(forall|a: int, b: int|
                    0 <= a < b < tasks@.len() ==> tasks@[a].id != tasks@[b].id) by {
                    assert(forall|k: int|
                        0 <= k < tasks@.len() ==> tasks@[k] == if k < i {
                            pre[k]
                        } else {
                            pre[k + 1]
                        });
                }
            }
            return true;
        }
        i = i + 1;
    }
    false
}

/// The tasks whose action type is `ty`, in order.
pub open spec fn tasks_of_type(s: Seq<Task>, ty: Seq<char>) -> Seq<TaskV>
    decreases s.len(),
{
    if s.len() == 0 {
        Seq::empty()
    } else if s.last().action_type@ == ty {
        tasks_of_type(s.drop_last(), ty).push(s.last()@)
    } else {
        tasks_of_type(s.drop_last(), ty)
    }
}

/// A copy of every task whose action type equals `task_type`.
pub fn get_tasks_by_type(tasks: &Vec<Task>, task_type: &String) -> (r: Vec<Task>)
    ensures
        task_views(r@) == tasks_of_type(tasks@, task_type@),
{
    let n = tasks.len();
    let mut r: Vec<Task> = Vec::new();
    proof {
        assert(tasks@.take(0) =~= Seq::<Task>::empty());
        assert(task_views(r@) =~= tasks_of_type(tasks@.take(0), task_type@));
    }
    let mut i: usize = 0;
    while i < n
        invariant
            i <= n,
            n == tasks@.len(),
            task_views(r@) =~= tasks_of_type(tasks@.take(i as int), task_type@),
        decreases n - i,
    {
        if tasks[i].action_type.eq(task_type) {
            let t = tasks[i].clone();
            r.push(t);
        }
        proof {
            let t = tasks@.take(i + 1);
            assert(t.drop_last() =~= tasks@.take(i as int));
            assert(t.last() == tasks@[i as int]);
            assert(task_views(r@) =~= tasks_of_type(t, task_type@));
        }
        i = i + 1;
    }
    proof {
        assert(tasks@.take(n as int) =~= tasks@);
        assert(task_views(r@) == tasks_of_type(tasks@, task_type@));
    }
    r
}

/// A copy of every task of a token operation type: the given operation
/// name under the token prefix.
pub fn get_token_tasks_by_type(tasks: &Vec<Task>, operation_type: &String) -> (r: Vec<Task>)
    ensures
        task_views(r@) == tasks_of_type(tasks@, "token_"@ + operation_type@),
{
    let prefixed = String::from_str("token_").concat(operation_type.as_str());
    get_tasks_by_type(tasks, &prefixed)
}

/// Whether a task is due now: enabled, and either never run or past its
/// period.
pub open spec fn task_due_spec(t: TaskV, now: u64) -> bool {
    t.enabled && (now >= t.last_run + t.frequency || t.last_run == 0)
}

/// Decides whether a task is due at `now`.
pub fn task_due(task: &Task, now: u64) -> (r: bool)
    ensures
        r == task_due_spec(task@, now),
{
    if !task.enabled {
        return false;
    }
    if task.last_run == 0 {
        return true;
    }
    task.frequency <= now && task.last_run <= now - task.frequency
}

/// What the runner does with a due task.
pub enum TaskAction {
    TokenInit,
    TokenTransfer,
    TokenMint,
    TokenBurn,
    HttpRequest,
    Custom,
}

/// Dispatches a task's action type to what the runner must do.
pub fn classify_task(action_type: &String) -> (r: TaskAction)
    ensures
        (r is TokenInit) == (action_type@ == "token_init"@),
        (r is TokenTransfer) == (action_type@ == "token_transfer"@),
        (r is TokenMint) == (action_type@ == "token_mint"@),
        (r is TokenBurn) == (action_type@ == "token_burn"@),
        (r is HttpRequest) == (action_type@ == "http_request"@),
{
    proof {
        reveal_strlit("token_init");
        reveal_strlit("token_transfer");
        reveal_strlit("token_mint");
        reveal_strlit("token_burn");
        reveal_strlit("http_request");
        assert("token_init"@.len() == 10 && "token_transfer"@.len() == 14 && "token_mint"@.len()
            == 10 && "token_burn"@.len() == 10 && "http_request"@.len() == 12);
        assert("token_init"@[6] == 'i' && "token_mint"@[6] == 'm' && "token_burn"@[6] == 'b');
        assert("token_init"@ != "token_mint"@);
        assert("token_init"@ != "token_burn"@);
        assert("token_mint"@ != "token_burn"@);
    }
    if action_type.eq(&"token_init".to_owned()) {
        TaskAction::TokenInit
    } else if action_type.eq(&"token_transfer".to_owned()) {
        TaskAction::TokenTransfer
    } else if action_type.eq(&"token_mint".to_owned()) {
        TaskAction::TokenMint
    } else if action_type.eq(&"token_burn".to_owned()) {
        TaskAction::TokenBurn
    } else if action_type.eq(&"http_request".to_owned()) {
        TaskAction::HttpRequest
    } else {
        TaskAction::Custom
    }
}

} // verus!
