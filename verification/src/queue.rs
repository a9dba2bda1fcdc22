//! The list of tasks that a server keeps: finding, adding, starting and ending tasks,
//! and numbering the waiting ones.

use vstd::prelude::*;
use vstd::string::StringSliceAdditionalSpecFns;
use vstd::utf8::encode_utf8;
use crate::task::{same_text, HandParameters, Task, TaskCompleteTypes, TaskStatus, WorkerStatus};
use crate::text::{accommodated, byte_texts, splittable, try_accomodate_list_to_character_limit};

verus! {

/// Position of the first task that satisfies `p`, or the length when none does.
pub open spec fn first_where(ts: Seq<Task>, p: spec_fn(Task) -> bool) -> nat
    decreases ts.len(),
{
    if ts.len() == 0 {
        0
    } else if p(ts[0]) {
        0
    } else {
        1 + first_where(ts.drop_first(), p)
    }
}

/// The task has the given id.
pub open spec fn id_is(id: Seq<char>) -> spec_fn(Task) -> bool {
    |t: Task| t.id@ == id
}

/// The task waits in the queue.
pub open spec fn waiting() -> spec_fn(Task) -> bool {
    |t: Task| t.status is Waiting
}

/// The task is being written.
pub open spec fn working() -> spec_fn(Task) -> bool {
    |t: Task| t.status is Working
}

/// The same task in another state.
pub open spec fn with_status(t: Task, s: TaskStatus) -> Task {
    Task { status: s, ..t }
}

/// How many tasks wait.
pub open spec fn waiting_count(ts: Seq<Task>) -> nat
    decreases ts.len(),
{
    if ts.len() == 0 {
        0
    } else {
        waiting_count(ts.drop_last()) + if ts.last().status is Waiting {
            1nat
        } else {
            0nat
        }
    }
}

/// The queue position that the task at `j` is owed: one more than the number
/// of waiting tasks before it (kept to 32 bits, as the position is stored).
pub open spec fn position_at(ts: Seq<Task>, j: int) -> u32 {
    (waiting_count(ts.take(j)) + 1) as u32
}

/// Every waiting task renumbered by its place among the waiting tasks.
pub open spec fn renumbered(ts: Seq<Task>) -> Seq<Task> {
    Seq::new(
        ts.len(),
        |j: int|
            if ts[j].status is Waiting {
                with_status(ts[j], TaskStatus::Waiting(position_at(ts, j)))
            } else {
                ts[j]
            },
    )
}

/// The waiting tasks are numbered 1, 2, ... in list order.
pub open spec fn queue_numbered(ts: Seq<Task>) -> bool {
    forall|j: int|
        0 <= j < ts.len() && (#[trigger] ts[j]).status is Waiting ==> ts[j].status
            == TaskStatus::Waiting(position_at(ts, j))
}

/// The list after the task with the given id has been given `status`: when there is
/// such a task, the first one gets it and the queue is renumbered; else nothing changes.
pub open spec fn after_completion(ts: Seq<Task>, id: Seq<char>, status: TaskStatus) -> Seq<Task> {
    let k = first_where(ts, id_is(id)) as int;
    if k < ts.len() {
        renumbered(ts.update(k, with_status(ts[k], status)))
    } else {
        ts
    }
}

/// A new task, waiting at the given position.
pub open spec fn task_for(id: String, params: HandParameters, position: u32) -> Task {
    Task {
        id: id,
        text: params.text,
        style: params.style,
        bias: params.bias,
        color: params.color,
        width: params.width,
        status: TaskStatus::Waiting(position),
    }
}

/// A request for a task: the list afterwards, and the task answered. A task that
/// is already there is answered as it stands; else a new one joins the end,
/// waiting after all the tasks that wait.
pub open spec fn registered(ts: Seq<Task>, id: String, params: HandParameters) -> (Seq<Task>, Task) {
    let k = first_where(ts, id_is(id@)) as int;
    if k < ts.len() {
        (ts, ts[k])
    } else {
        let t = task_for(id, params, (waiting_count(ts) + 1) as u32);
        (ts.push(t), t)
    }
}

/// The list after the first waiting task, if any, has been given `status`.
pub open spec fn claimed(ts: Seq<Task>, status: TaskStatus) -> Seq<Task> {
    let k = first_where(ts, waiting()) as int;
    if k < ts.len() {
        ts.update(k, with_status(ts[k], status))
    } else {
        ts
    }
}

/// The list after one more line of the task with the given id is done: its count of
/// lines done goes up by one when it is being written.
pub open spec fn after_line_done(ts: Seq<Task>, id: Seq<char>) -> Seq<Task> {
    let k = first_where(ts, id_is(id)) as int;
    if k < ts.len() {
        match ts[k].status {
            TaskStatus::Working(done, total) => ts.update(
                k,
                with_status(ts[k], TaskStatus::Working((done + 1) as u32, total)),
            ),
            _ => ts,
        }
    } else {
        ts
    }
}

/// The count of lines done of the task with the given id can go up without overflow.
pub open spec fn line_count_room(ts: Seq<Task>, id: Seq<char>) -> bool {
    let k = first_where(ts, id_is(id)) as int;
    k < ts.len() ==> match ts[k].status {
        TaskStatus::Working(done, _) => done < u32::MAX,
        _ => true,
    }
}

/// What a machine that writes whole tasks reports: the first task being written,
/// else that it is available.
pub open spec fn status_of_machine(ts: Seq<Task>) -> WorkerStatus {
    let k = first_where(ts, working()) as int;
    if k < ts.len() {
        WorkerStatus::Working(ts[k])
    } else {
        WorkerStatus::Available
    }
}

/// `first_where` is the first position whose task satisfies `p`, or the length.
pub proof fn lemma_first_where(ts: Seq<Task>, p: spec_fn(Task) -> bool, e: int)
    requires
        0 <= e <= ts.len(),
        forall|j: int| 0 <= j < e ==> !p(#[trigger] ts[j]),
        e == ts.len() || p(ts[e]),
    ensures
        first_where(ts, p) == e,
    decreases e,
{
    if e > 0 {
        let t = ts.drop_first();
        assert(!p(ts[0]));
        assert forall|j: int| 0 <= j < e - 1 implies !p(#[trigger] t[j]) by {
            assert(t[j] == ts[j + 1]);
        }
        if e < ts.len() {
            assert(t[e - 1] == ts[e]);
        }
        lemma_first_where(t, p, e - 1);
    }
}

/// `first_where` lies within the list, and no task before it satisfies `p`.
pub proof fn lemma_first_where_bounds(ts: Seq<Task>, p: spec_fn(Task) -> bool)
    ensures
        first_where(ts, p) <= ts.len(),
        first_where(ts, p) < ts.len() ==> p(ts[first_where(ts, p) as int]),
        forall|j: int| 0 <= j < first_where(ts, p) ==> !p(#[trigger] ts[j]),
    decreases ts.len(),
{
    if ts.len() > 0 && !p(ts[0]) {
        let t = ts.drop_first();
        lemma_first_where_bounds(t, p);
        assert forall|j: int| 0 <= j < first_where(ts, p) implies !p(#[trigger] ts[j]) by {
            if j > 0 {
                assert(ts[j] == t[j - 1]);
            }
        }
    }
}

/// Two lists that agree on which tasks wait have the same number of waiting tasks.
proof fn lemma_waiting_count_same(a: Seq<Task>, b: Seq<Task>)
    requires
        a.len() == b.len(),
        forall|j: int| 0 <= j < a.len() ==> (a[j].status is Waiting <==> b[j].status is Waiting),
    ensures
        waiting_count(a) == waiting_count(b),
    decreases a.len(),
{
    if a.len() > 0 {
        lemma_waiting_count_same(a.drop_last(), b.drop_last());
    }
}

/// Counting one more task adds one when it waits.
proof fn lemma_waiting_count_step(ts: Seq<Task>, i: int)
    requires
        0 <= i < ts.len(),
    ensures
        waiting_count(ts.take(i + 1)) == waiting_count(ts.take(i)) + if ts[i].status is Waiting {
            1nat
        } else {
            0nat
        },
{
    assert(ts.take(i + 1).drop_last() =~= ts.take(i));
}

/// Index of the first task with the given id, or the length when there is none.
pub fn find_task_index(tasks: &Vec<Task>, id: &str) -> (k: usize)
    ensures
        k == first_where(tasks@, id_is(id@)),
{
    let mut i: usize = 0;
    while i < tasks.len()
        invariant
            i <= tasks@.len(),
            forall|j: int| 0 <= j < i ==> !id_is(id@)(#[trigger] tasks@[j]),
        decreases tasks@.len() - i,
    {
        if same_text(tasks[i].id.as_str(), id) {
            proof {
                lemma_first_where(tasks@, id_is(id@), i as int);
            }
            return i;
        }
        i = i + 1;
    }
    proof {
        lemma_first_where(tasks@, id_is(id@), i as int);
    }
    i
}

/// Index of the first waiting task, or the length when none waits.
pub fn first_waiting_index(tasks: &Vec<Task>) -> (k: usize)
    ensures
        k == first_where(tasks@, waiting()),
{
    let mut i: usize = 0;
    while i < tasks.len()
        invariant
            i <= tasks@.len(),
            forall|j: int| 0 <= j < i ==> !waiting()(#[trigger] tasks@[j]),
        decreases tasks@.len() - i,
    {
        if tasks[i].status.is_waiting() {
            proof {
                lemma_first_where(tasks@, waiting(), i as int);
            }
            return i;
        }
        i = i + 1;
    }
    proof {
        lemma_first_where(tasks@, waiting(), i as int);
    }
    i
}

/// Index of the first task being written, or the length when there is none.
pub fn first_working_index(tasks: &Vec<Task>) -> (k: usize)
    ensures
        k == first_where(tasks@, working()),
        k <= tasks@.len(),
        k < tasks@.len() ==> tasks@[k as int].status is Working,
        forall|j: int| 0 <= j < k ==> !((#[trigger] tasks@[j]).status is Working),
{
    let mut i: usize = 0;
    while i < tasks.len()
        invariant
            i <= tasks@.len(),
            forall|j: int| 0 <= j < i ==> !working()(#[trigger] tasks@[j]),
        decreases tasks@.len() - i,
    {
        if tasks[i].status.is_working() {
            proof {
                lemma_first_where(tasks@, working(), i as int);
            }
            return i;
        }
        i = i + 1;
    }
    proof {
        lemma_first_where(tasks@, working(), i as int);
    }
    i
}

/// The first task with the given id.
pub fn find_task(tasks: &Vec<Task>, id: &str) -> (r: Option<Task>)
    ensures
        ({
            let k = first_where(tasks@, id_is(id@)) as int;
            &&& r is Some <==> k < tasks@.len()
            &&& r matches Some(t) ==> t == tasks@[k]
        }),
{
    let k = find_task_index(tasks, id);
    if k < tasks.len() {
        Some(tasks[k].clone())
    } else {
        None
    }
}

/// How many tasks wait.
pub fn count_waiting(tasks: &Vec<Task>) -> (n: usize)
    ensures
        n == waiting_count(tasks@),
        n <= tasks@.len(),
{
    let mut n: usize = 0;
    let mut i: usize = 0;
    while i < tasks.len()
        invariant
            i <= tasks@.len(),
            n <= i,
            n == waiting_count(tasks@.take(i as int)),
        decreases tasks@.len() - i,
    {
        proof {
            lemma_waiting_count_step(tasks@, i as int);
        }
        if tasks[i].status.is_waiting() {
            n = n + 1;
        }
        i = i + 1;
    }
    proof {
        assert(tasks@.take(i as int) =~= tasks@);
    }
    n
}

/// Gives the task at `k` another state.
fn set_status(tasks: &mut Vec<Task>, k: usize, status: TaskStatus)
    requires
        k < old(tasks)@.len(),
    ensures
        final(tasks)@ == old(tasks)@.update(k as int, with_status(old(tasks)@[k as int], status)),
{
    let mut t = tasks[k].clone();
    t.status = status;
    tasks.set(k, t);
}

/// Numbers every waiting task by its place among the waiting tasks, from 1.
fn renumber_waiting(tasks: &mut Vec<Task>)
    ensures
        final(tasks)@ == renumbered(old(tasks)@),
{
    let ghost orig = tasks@;
    let mut w: usize = 0;
    let mut i: usize = 0;
    while i < tasks.len()
        invariant
            tasks@.len() == orig.len(),
            i <= orig.len(),
            w <= i,
            w == waiting_count(orig.take(i as int)),
            forall|j: int| 0 <= j < i ==> tasks@[j] == #[trigger] renumbered(orig)[j],
            forall|j: int| i <= j < orig.len() ==> tasks@[j] == orig[j],
        decreases orig.len() - i,
    {
        proof {
            lemma_waiting_count_step(orig, i as int);
        }
        if tasks[i].status.is_waiting() {
            set_status(tasks, i, TaskStatus::Waiting((w + 1) as u32));
            w = w + 1;
        }
        i = i + 1;
    }
    proof {
        assert(tasks@ =~= renumbered(orig));
    }
}

/// Gives the first task with the given id the new status and then renumbers the
/// waiting tasks; does nothing when no task has that id.
pub fn complete_task(tasks: &mut Vec<Task>, id: &str, status: TaskStatus)
    ensures
        final(tasks)@ == after_completion(old(tasks)@, id@, status),
        final(tasks)@.len() == old(tasks)@.len(),
        forall|k: int|
            0 <= k < old(tasks)@.len() && old(tasks)@[k].id@ == id@ && (forall|j: int|
                0 <= j < k ==> (#[trigger] old(tasks)@[j]).id@ != id@) && !(status is Waiting)
                ==> #[trigger] final(tasks)@[k] == (Task { status: status, ..old(tasks)@[k] }),
        (forall|j: int| 0 <= j < old(tasks)@.len() ==> (#[trigger] old(tasks)@[j]).id@ != id@)
            ==> final(tasks)@ == old(tasks)@,
{
    proof {
        assert forall|k: int|
            0 <= k < old(tasks)@.len() && old(tasks)@[k].id@ == id@ && (forall|j: int|
                0 <= j < k ==> (#[trigger] old(tasks)@[j]).id@ != id@) && !(status is Waiting)
            implies #[trigger] after_completion(old(tasks)@, id@, status)[k] == (Task {
            status: status,
            ..old(tasks)@[k]
        }) by {
            lemma_completion_sets_status(old(tasks)@, id@, status, k);
        }
        if forall|j: int| 0 <= j < old(tasks)@.len() ==> (#[trigger] old(tasks)@[j]).id@ != id@ {
            lemma_completion_of_unknown_id(old(tasks)@, id@, status);
        }
    }
    let k = find_task_index(tasks, id);
    if k < tasks.len() {
        set_status(tasks, k, status);
        renumber_waiting(tasks);
    }
}

/// Answers a request for a task with the given id: the task already kept under
/// that id, or else a new one that waits behind all waiting tasks and is added.
pub fn register_task(tasks: &mut Vec<Task>, id: String, params: HandParameters) -> (r: Task)
    requires
        old(tasks)@.len() < usize::MAX,
    ensures
        (final(tasks)@, r) == registered(old(tasks)@, id, params),
        (forall|j: int| 0 <= j < old(tasks)@.len() ==> (#[trigger] old(tasks)@[j]).id@ != id@) ==> {
            &&& r == (Task {
                id: id,
                text: params.text,
                style: params.style,
                bias: params.bias,
                color: params.color,
                width: params.width,
                status: TaskStatus::Waiting((waiting_count(old(tasks)@) + 1) as u32),
            })
            &&& final(tasks)@ == old(tasks)@.push(r)
        },
{
    proof {
        if forall|j: int| 0 <= j < old(tasks)@.len() ==> (#[trigger] old(tasks)@[j]).id@ != id@ {
            lemma_new_task_carries_request(old(tasks)@, id, params);
        }
    }
    let k = find_task_index(tasks, id.as_str());
    if k < tasks.len() {
        tasks[k].clone()
    } else {
        let open = count_waiting(tasks);
        let task = Task {
            id: id,
            text: params.text,
            style: params.style,
            bias: params.bias,
            color: params.color,
            width: params.width,
            status: TaskStatus::Waiting((open + 1) as u32),
        };
        tasks.push(task.clone());
        task
    }
}

/// A machine that writes whole tasks takes the first waiting task and marks it
/// as being written, with no line counts.
pub fn claim_for_worker(tasks: &mut Vec<Task>) -> (r: Option<Task>)
    ensures
        ({
            let k = first_where(old(tasks)@, waiting()) as int;
            &&& final(tasks)@ == claimed(old(tasks)@, TaskStatus::Working(0, 0))
            &&& r is Some <==> k < old(tasks)@.len()
            &&& r matches Some(t) ==> t == final(tasks)@[k]
        }),
{
    let k = first_waiting_index(tasks);
    if k < tasks.len() {
        set_status(tasks, k, TaskStatus::Working(0, 0));
        Some(tasks[k].clone())
    } else {
        None
    }
}

/// The first waiting task's text, when there is one, can be cut into lines.
pub open spec fn next_claim_splittable(ts: Seq<Task>) -> bool {
    let k = first_where(ts, waiting()) as int;
    k < ts.len() ==> splittable(encode_utf8(ts[k].text@))
}

/// A server that shares lines out takes the first waiting task, cuts its text into
/// lines, and marks it as being written with none of those lines done.
pub fn claim_for_lines(tasks: &mut Vec<Task>) -> (r: Option<(Task, Vec<String>)>)
    requires
        next_claim_splittable(old(tasks)@),
    ensures
        ({
            let k = first_where(old(tasks)@, waiting()) as int;
            &&& r is Some <==> k < old(tasks)@.len()
            &&& r is None ==> final(tasks)@ == old(tasks)@
            &&& r matches Some(c) ==> {
                &&& byte_texts(c.1@) == accommodated(encode_utf8(old(tasks)@[k].text@))
                &&& final(tasks)@ == claimed(
                    old(tasks)@,
                    TaskStatus::Working(0, c.1@.len() as u32),
                )
                &&& c.0 == final(tasks)@[k]
            }
        }),
{
    let k = first_waiting_index(tasks);
    if k < tasks.len() {
        let lines = match try_accomodate_list_to_character_limit(tasks[k].text.as_str()) {
            Some(v) => v,
            None => Vec::new(),
        };
        set_status(tasks, k, TaskStatus::Working(0, lines.len() as u32));
        Some((tasks[k].clone(), lines))
    } else {
        None
    }
}

/// What a machine that writes whole tasks reports about itself.
pub fn machine_status(tasks: &Vec<Task>) -> (r: WorkerStatus)
    ensures
        r == status_of_machine(tasks@),
        (r is Available) <==> forall|j: int|
            0 <= j < tasks@.len() ==> !((#[trigger] tasks@[j]).status is Working),
        r matches WorkerStatus::Working(t) ==> exists|k: int|
            0 <= k < tasks@.len() && tasks@[k] == t && t.status is Working,
{
    proof {
        lemma_machine_reports_work(tasks@);
    }
    let k = first_working_index(tasks);
    if k < tasks.len() {
        WorkerStatus::Working(tasks[k].clone())
    } else {
        WorkerStatus::Available
    }
}

/// Counts one more line done for the task with the given id.
pub fn mark_line_done(tasks: &mut Vec<Task>, id: &str)
    requires
        line_count_room(old(tasks)@, id@),
    ensures
        final(tasks)@ == after_line_done(old(tasks)@, id@),
{
    let k = find_task_index(tasks, id);
    if k < tasks.len() {
        match tasks[k].status {
            TaskStatus::Working(done, total) => {
                set_status(tasks, k, TaskStatus::Working(done + 1, total));
            },
            _ => {},
        }
    }
}

/// What the server does with a machine's report on one line: when the report says
/// the line's task has ended, one more line of the main task is counted done and the
/// line is finished; else nothing changes and the line is to be given out again.
pub fn line_reply(tasks: &mut Vec<Task>, maintaskid: &str, reply: &Task) -> (done: bool)
    requires
        line_count_room(old(tasks)@, maintaskid@),
    ensures
        done == (reply.status is Completed),
        final(tasks)@ == if done {
            after_line_done(old(tasks)@, maintaskid@)
        } else {
            old(tasks)@
        },
{
    if reply.status.is_completed() {
        mark_line_done(tasks, maintaskid);
        true
    } else {
        false
    }
}

/// Two lists hold the same requests in the same order; only states may differ.
pub open spec fn same_requests(a: Seq<Task>, b: Seq<Task>) -> bool {
    &&& a.len() == b.len()
    &&& forall|j: int| 0 <= j < a.len() ==> with_status(#[trigger] a[j], b[j].status) == b[j]
}

/// Renumbering leaves the waiting tasks numbered 1, 2, ... in list order.
pub proof fn lemma_renumbered_numbered(ts: Seq<Task>)
    ensures
        queue_numbered(renumbered(ts)),
{
    let r = renumbered(ts);
    assert forall|j: int| 0 <= j < r.len() && (#[trigger] r[j]).status is Waiting implies r[j].status
        == TaskStatus::Waiting(position_at(r, j)) by {
        lemma_waiting_count_same(r.take(j), ts.take(j));
    }
}

/// Once a task has been given a new state, the waiting tasks are numbered
/// 1, 2, ... in list order.
pub proof fn lemma_completion_numbers_queue(ts: Seq<Task>, id: Seq<char>, status: TaskStatus)
    requires
        first_where(ts, id_is(id)) < ts.len(),
    ensures
        queue_numbered(after_completion(ts, id, status)),
{
    let k = first_where(ts, id_is(id)) as int;
    lemma_renumbered_numbered(ts.update(k, with_status(ts[k], status)));
}

/// Giving a task a new state changes states only: the same requests stay, in the
/// same order.
pub proof fn lemma_completion_keeps_requests(ts: Seq<Task>, id: Seq<char>, status: TaskStatus)
    ensures
        same_requests(ts, after_completion(ts, id, status)),
{
}

/// A new task joins a numbered queue at the next position, so the queue stays numbered.
pub proof fn lemma_registration_keeps_numbering(ts: Seq<Task>, id: String, params: HandParameters)
    requires
        queue_numbered(ts),
    ensures
        queue_numbered(registered(ts, id, params).0),
{
    let k = first_where(ts, id_is(id@)) as int;
    if k >= ts.len() {
        let t = task_for(id, params, (waiting_count(ts) + 1) as u32);
        let u = ts.push(t);
        assert forall|j: int| 0 <= j < u.len() && (#[trigger] u[j]).status is Waiting implies u[j].status
            == TaskStatus::Waiting(position_at(u, j)) by {
            if j < ts.len() {
                assert(u.take(j) =~= ts.take(j));
                assert(u[j] == ts[j]);
            } else {
                assert(u.take(j) =~= ts);
            }
        }
    }
}

/// After a request, the list holds a task with the requested id, and the first such
/// task is the one that was answered.
pub proof fn lemma_registered_is_found(ts: Seq<Task>, id: String, params: HandParameters)
    ensures
        ({
            let (u, t) = registered(ts, id, params);
            let k = first_where(u, id_is(id@)) as int;
            k < u.len() && u[k] == t
        }),
{
    let k = first_where(ts, id_is(id@)) as int;
    lemma_first_where_bounds(ts, id_is(id@));
    if k >= ts.len() {
        let t = task_for(id, params, (waiting_count(ts) + 1) as u32);
        let u = ts.push(t);
        assert forall|j: int| 0 <= j < ts.len() implies !id_is(id@)(#[trigger] u[j]) by {
            assert(u[j] == ts[j]);
            assert(!id_is(id@)(ts[j]));
        }
        lemma_first_where(u, id_is(id@), ts.len() as int);
    }
}

/// Asking again for a task with the same id changes nothing and answers the same
/// task, whatever else the second request says.
pub proof fn lemma_registration_idempotent(
    ts: Seq<Task>,
    id: String,
    first: HandParameters,
    again: HandParameters,
)
    ensures
        registered(registered(ts, id, first).0, id, again) == registered(ts, id, first),
{
    lemma_registered_is_found(ts, id, first);
}

/// Taking a task to write changes the state of the first waiting task only.
pub proof fn lemma_claim_keeps_requests(ts: Seq<Task>, status: TaskStatus)
    ensures
        same_requests(ts, claimed(ts, status)),
{
}

/// No task is being written.
pub open spec fn none_working(ts: Seq<Task>) -> bool {
    forall|i: int| 0 <= i < ts.len() ==> !((#[trigger] ts[i]).status is Working)
}

/// At most one task is being written.
pub open spec fn at_most_one_working(ts: Seq<Task>) -> bool {
    forall|i: int, j: int|
        0 <= i < ts.len() && 0 <= j < ts.len() && (#[trigger] ts[i]).status is Working
            && (#[trigger] ts[j]).status is Working ==> i == j
}

/// No two tasks share an id.
pub open spec fn ids_distinct(ts: Seq<Task>) -> bool {
    forall|i: int, j: int| 0 <= i < j < ts.len() ==> (#[trigger] ts[i]).id@ != (#[trigger] ts[j]).id@
}

/// A machine that writes whole tasks, starting with none in progress, takes one task
/// at a time: after it takes the first waiting task, that task alone is being written.
pub proof fn lemma_worker_one_at_a_time(ts: Seq<Task>)
    requires
        none_working(ts),
    ensures
        at_most_one_working(claimed(ts, TaskStatus::Working(0, 0))),
        first_where(ts, waiting()) < ts.len() ==> claimed(ts, TaskStatus::Working(0, 0))[first_where(
            ts,
            waiting(),
        ) as int].status == TaskStatus::Working(0, 0),
{
}

/// Ending the one task in progress leaves none in progress.
pub proof fn lemma_completion_ends_work(ts: Seq<Task>, id: Seq<char>, outcome: TaskCompleteTypes)
    requires
        at_most_one_working(ts),
        first_where(ts, id_is(id)) < ts.len(),
        ts[first_where(ts, id_is(id)) as int].status is Working,
    ensures
        none_working(after_completion(ts, id, TaskStatus::Completed(outcome))),
{
    let k = first_where(ts, id_is(id)) as int;
    let u = ts.update(k, with_status(ts[k], TaskStatus::Completed(outcome)));
    assert forall|i: int| 0 <= i < u.len() implies !((#[trigger] u[i]).status is Working) by {
        if i != k && u[i].status is Working {
            assert(ts[i].status is Working);
        }
    }
    let r = renumbered(u);
    assert forall|i: int| 0 <= i < r.len() implies !((#[trigger] r[i]).status is Working) by {
        assert(!(u[i].status is Working));
    }
}

/// A new request adds a waiting task only: which tasks are in progress does not change.
pub proof fn lemma_registration_keeps_work(ts: Seq<Task>, id: String, params: HandParameters)
    ensures
        none_working(ts) ==> none_working(registered(ts, id, params).0),
        at_most_one_working(ts) ==> at_most_one_working(registered(ts, id, params).0),
{
    let u = registered(ts, id, params).0;
    assert forall|i: int| 0 <= i < u.len() && (#[trigger] u[i]).status is Working implies i
        < ts.len() && u[i] == ts[i] by {
        if i >= ts.len() {
            assert(u[i].status is Waiting);
        }
    }
}

/// An ended task keeps its state when another task is given one, and when a task is
/// taken to be written.
pub proof fn lemma_completed_stays(ts: Seq<Task>, id: Seq<char>, status: TaskStatus, j: int)
    requires
        0 <= j < ts.len(),
        ts[j].status is Completed,
        j != first_where(ts, id_is(id)),
    ensures
        after_completion(ts, id, status)[j] == ts[j],
        claimed(ts, status)[j] == ts[j],
{
    lemma_first_where_bounds(ts, waiting());
}

/// With distinct ids, the first task with a task's id is that task.
pub proof fn lemma_distinct_ids_find(ts: Seq<Task>, k: int)
    requires
        ids_distinct(ts),
        0 <= k < ts.len(),
    ensures
        first_where(ts, id_is(ts[k].id@)) == k,
{
    assert forall|j: int| 0 <= j < k implies !id_is(ts[k].id@)(#[trigger] ts[j]) by {
        assert(ts[j].id@ != ts[k].id@);
    }
    lemma_first_where(ts, id_is(ts[k].id@), k);
}

/// Requests keep the ids of the tasks distinct.
pub proof fn lemma_registration_keeps_ids_distinct(ts: Seq<Task>, id: String, params: HandParameters)
    requires
        ids_distinct(ts),
    ensures
        ids_distinct(registered(ts, id, params).0),
{
    lemma_first_where_bounds(ts, id_is(id@));
    let u = registered(ts, id, params).0;
    assert forall|i: int, j: int| 0 <= i < j < u.len() implies (#[trigger] u[i]).id@
        != (#[trigger] u[j]).id@ by {
        if j >= ts.len() {
            assert(u[i] == ts[i]);
            assert(!id_is(id@)(ts[i]));
        } else {
            assert(ts[i].id@ != ts[j].id@);
        }
    }
}

/// Lists holding the same requests find the same first task with an id.
proof fn lemma_first_id_same(a: Seq<Task>, b: Seq<Task>, id: Seq<char>)
    requires
        same_requests(a, b),
    ensures
        first_where(a, id_is(id)) == first_where(b, id_is(id)),
{
    lemma_first_where_bounds(a, id_is(id));
    let k = first_where(a, id_is(id)) as int;
    assert forall|j: int| 0 <= j < k implies !id_is(id)(#[trigger] b[j]) by {
        assert(with_status(a[j], b[j].status) == b[j]);
        assert(!id_is(id)(a[j]));
    }
    if k < a.len() {
        assert(with_status(a[k], b[k].status) == b[k]);
    }
    lemma_first_where(b, id_is(id), k);
}

/// Renumbering gives the same list from two lists that hold the same requests, agree
/// on which tasks wait, and agree on every task that does not wait.
proof fn lemma_renumbered_same(v: Seq<Task>, w: Seq<Task>)
    requires
        same_requests(v, w),
        forall|j: int| 0 <= j < v.len() ==> ((#[trigger] v[j]).status is Waiting <==> w[j].status is Waiting),
        forall|j: int| 0 <= j < v.len() && !((#[trigger] v[j]).status is Waiting) ==> w[j] == v[j],
    ensures
        renumbered(w) == renumbered(v),
{
    assert forall|j: int| 0 <= j < v.len() implies #[trigger] renumbered(w)[j] == renumbered(v)[j] by {
        lemma_waiting_count_same(v.take(j), w.take(j));
        assert(with_status(v[j], w[j].status) == w[j]);
    }
    assert(renumbered(w) =~= renumbered(v));
}

/// Giving a task the same state twice is the same as giving it once.
pub proof fn lemma_completion_idempotent(ts: Seq<Task>, id: Seq<char>, status: TaskStatus)
    ensures
        after_completion(after_completion(ts, id, status), id, status) == after_completion(
            ts,
            id,
            status,
        ),
{
    let k = first_where(ts, id_is(id)) as int;
    if k < ts.len() {
        let v = ts.update(k, with_status(ts[k], status));
        let u = renumbered(v);
        lemma_completion_keeps_requests(ts, id, status);
        lemma_first_id_same(ts, u, id);
        let w = u.update(k, with_status(u[k], status));
        assert(same_requests(v, w)) by {
            assert forall|j: int| 0 <= j < v.len() implies with_status(#[trigger] v[j], w[j].status)
                == w[j] by {
                assert(with_status(v[j], u[j].status) == u[j]);
            }
        }
        assert forall|j: int| 0 <= j < v.len() && !((#[trigger] v[j]).status is Waiting) implies w[j]
            == v[j] by {
            if j == k {
                assert(with_status(v[j], u[j].status) == u[j]);
            }
        }
        lemma_renumbered_same(v, w);
    }
}

/// How a task's state may move in worker mode: it stays; a waiting task's position
/// changes; a waiting task is taken up with no line counts; a task in progress ends.
pub open spec fn status_moves(a: TaskStatus, b: TaskStatus) -> bool {
    ||| a == b
    ||| a is Waiting && b is Waiting
    ||| a is Waiting && b == TaskStatus::Working(0, 0)
    ||| a is Working && b is Completed
}

/// One step of the list in worker mode: the same requests stay, each state moves as
/// `status_moves` allows (so an ended task never changes), and new tasks wait.
pub open spec fn lifecycle_step(before: Seq<Task>, after: Seq<Task>) -> bool {
    &&& before.len() <= after.len()
    &&& forall|j: int|
        0 <= j < before.len() ==> with_status(#[trigger] before[j], after[j].status) == after[j]
            && status_moves(before[j].status, after[j].status)
    &&& forall|j: int| before.len() <= j < after.len() ==> (#[trigger] after[j]).status is Waiting
}

/// The life of tasks in worker mode, as one invariant: at most one task is in
/// progress, and each state moves only from waiting to in progress (with no line
/// counts) to ended. Requests keep this; taking up the first waiting task keeps it
/// when none is in progress; ending the task in progress keeps it and leaves none in
/// progress.
pub proof fn lemma_worker_lifecycle(
    ts: Seq<Task>,
    request_id: String,
    params: HandParameters,
    done_id: Seq<char>,
    outcome: TaskCompleteTypes,
)
    requires
        at_most_one_working(ts),
    ensures
        at_most_one_working(registered(ts, request_id, params).0),
        lifecycle_step(ts, registered(ts, request_id, params).0),
        none_working(ts) ==> at_most_one_working(claimed(ts, TaskStatus::Working(0, 0)))
            && lifecycle_step(ts, claimed(ts, TaskStatus::Working(0, 0))),
        ({
            let k = first_where(ts, id_is(done_id)) as int;
            k < ts.len() && ts[k].status is Working ==> {
                &&& none_working(after_completion(ts, done_id, TaskStatus::Completed(outcome)))
                &&& lifecycle_step(
                    ts,
                    after_completion(ts, done_id, TaskStatus::Completed(outcome)),
                )
            }
        }),
{
    lemma_registration_keeps_work(ts, request_id, params);
    let r = registered(ts, request_id, params).0;
    assert(lifecycle_step(ts, r)) by {
        assert forall|j: int| 0 <= j < ts.len() implies with_status(#[trigger] ts[j], r[j].status)
            == r[j] && status_moves(ts[j].status, r[j].status) by {
            assert(r[j] == ts[j]);
        }
    }
    if none_working(ts) {
        lemma_worker_one_at_a_time(ts);
        lemma_first_where_bounds(ts, waiting());
    }
    let k = first_where(ts, id_is(done_id)) as int;
    if k < ts.len() && ts[k].status is Working {
        lemma_completion_ends_work(ts, done_id, outcome);
        let d = after_completion(ts, done_id, TaskStatus::Completed(outcome));
        let v = ts.update(k, with_status(ts[k], TaskStatus::Completed(outcome)));
        assert forall|j: int| 0 <= j < ts.len() implies with_status(#[trigger] ts[j], d[j].status)
            == d[j] && status_moves(ts[j].status, d[j].status) by {
            assert(d[j] == renumbered(v)[j]);
        }
    }
}

/// A task that is queued anew carries the request unchanged: the id asked for, the
/// request's text, style, bias, color and width, and a waiting position one past
/// the number of waiting tasks; it is added at the end and nothing else changes.
pub proof fn lemma_new_task_carries_request(ts: Seq<Task>, id: String, params: HandParameters)
    requires
        forall|j: int| 0 <= j < ts.len() ==> (#[trigger] ts[j]).id@ != id@,
    ensures
        registered(ts, id, params).1 == (Task {
            id: id,
            text: params.text,
            style: params.style,
            bias: params.bias,
            color: params.color,
            width: params.width,
            status: TaskStatus::Waiting((waiting_count(ts) + 1) as u32),
        }),
        registered(ts, id, params).0 == ts.push(registered(ts, id, params).1),
{
    lemma_first_where(ts, id_is(id@), ts.len() as int);
}

/// A machine reports a task as being written only if that task is being written,
/// and the first such one; it reports itself available exactly when no task is
/// being written.
pub proof fn lemma_machine_reports_work(ts: Seq<Task>)
    ensures
        (status_of_machine(ts) is Available) <==> forall|j: int|
            0 <= j < ts.len() ==> !((#[trigger] ts[j]).status is Working),
        status_of_machine(ts) matches WorkerStatus::Working(t) ==> exists|k: int|
            0 <= k < ts.len() && ts[k] == t && t.status is Working && forall|j: int|
                0 <= j < k ==> !((#[trigger] ts[j]).status is Working),
{
    lemma_first_where_bounds(ts, working());
    let k = first_where(ts, working()) as int;
    if k < ts.len() {
        assert(ts[k].status is Working);
        assert forall|j: int| 0 <= j < k implies !((#[trigger] ts[j]).status is Working) by {
            assert(!working()(ts[j]));
        }
    } else {
        assert forall|j: int| 0 <= j < ts.len() implies !((#[trigger] ts[j]).status is Working) by {
            assert(!working()(ts[j]));
        }
    }
}

/// Completing gives the first task with the id exactly the status passed in (a
/// waiting status is then renumbered), keeps its other fields, and keeps the
/// length; with no task of that id, nothing changes.
pub proof fn lemma_completion_sets_status(ts: Seq<Task>, id: Seq<char>, status: TaskStatus, k: int)
    requires
        0 <= k < ts.len(),
        ts[k].id@ == id,
        forall|j: int| 0 <= j < k ==> (#[trigger] ts[j]).id@ != id,
    ensures
        after_completion(ts, id, status).len() == ts.len(),
        !(status is Waiting) ==> after_completion(ts, id, status)[k] == (Task { status: status, ..ts[k] }),
        status is Waiting ==> after_completion(ts, id, status)[k].status is Waiting,
        after_completion(ts, id, status)[k].id == ts[k].id,
        after_completion(ts, id, status)[k].text == ts[k].text,
{
    assert forall|j: int| 0 <= j < k implies !id_is(id)(#[trigger] ts[j]) by {
        assert(ts[j].id@ != id);
    }
    lemma_first_where(ts, id_is(id), k);
}

/// Completing a task with an id that no task has changes nothing.
pub proof fn lemma_completion_of_unknown_id(ts: Seq<Task>, id: Seq<char>, status: TaskStatus)
    requires
        forall|j: int| 0 <= j < ts.len() ==> (#[trigger] ts[j]).id@ != id,
    ensures
        after_completion(ts, id, status) == ts,
{
    lemma_first_where(ts, id_is(id), ts.len() as int);
}

} // verus!
