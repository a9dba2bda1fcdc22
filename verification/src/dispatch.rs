//! Sharing the lines of a task out to writing machines, and taking the results back.

use vstd::prelude::*;
use crate::ident::{file_url, image_url};
use crate::task::{copy_opt_text, same_text, HandParameters, SuccessResult, Task, TaskCompleteTypes, TaskStatus, WorkerStatus};

verus! {

/// The writing machines that a server knows of, by address, each with what it
/// last reported; an address occurs once.
pub struct Workers {
    entries: Vec<(String, WorkerStatus)>,
}

/// No address occurs twice among the entries.
pub open spec fn distinct_addresses(es: Seq<(String, WorkerStatus)>) -> bool {
    forall|a: int, b: int| 0 <= a < b < es.len() ==> (#[trigger] es[a]).0@ != (#[trigger] es[b]).0@
}

impl Workers {
    #[verifier::type_invariant]
    spec fn addresses_distinct(self) -> bool {
        distinct_addresses(self.entries@)
    }
}

/// The address and status that the entries hold, as a map.
pub open spec fn entries_map(es: Seq<(String, WorkerStatus)>) -> Map<Seq<char>, WorkerStatus> {
    Map::new(
        |k: Seq<char>| exists|i: int| 0 <= i < es.len() && (#[trigger] es[i]).0@ == k,
        |k: Seq<char>| es[choose|i: int| 0 <= i < es.len() && (#[trigger] es[i]).0@ == k].1,
    )
}

impl View for Workers {
    type V = Map<Seq<char>, WorkerStatus>;

    closed spec fn view(&self) -> Map<Seq<char>, WorkerStatus> {
        entries_map(self.entries@)
    }
}

/// With distinct addresses, the map holds each entry's status under its address.
proof fn lemma_entries_map_at(es: Seq<(String, WorkerStatus)>, i: int)
    requires
        0 <= i < es.len(),
        distinct_addresses(es),
    ensures
        entries_map(es).contains_key(es[i].0@),
        entries_map(es)[es[i].0@] == es[i].1,
{
    let k = es[i].0@;
    assert(entries_map(es).dom().contains(k));
    let j = choose|j: int| 0 <= j < es.len() && (#[trigger] es[j]).0@ == k;
    if j < i {
        assert(es[j].0@ != es[i].0@);
    } else if i < j {
        assert(es[i].0@ != es[j].0@);
    }
}

/// Replacing an entry by one with the same address keeps the addresses distinct and
/// sets that address in the map.
proof fn lemma_entries_map_update(es: Seq<(String, WorkerStatus)>, i: int, e: (String, WorkerStatus))
    requires
        distinct_addresses(es),
        0 <= i < es.len(),
        e.0@ == es[i].0@,
    ensures
        distinct_addresses(es.update(i, e)),
        entries_map(es.update(i, e)) == entries_map(es).insert(e.0@, e.1),
{
    let n = es.update(i, e);
    assert forall|a: int, b: int| 0 <= a < b < n.len() implies (#[trigger] n[a]).0@
        != (#[trigger] n[b]).0@ by {
        assert(es[a].0@ != es[b].0@);
    }
    let m = entries_map(es).insert(e.0@, e.1);
    assert forall|k: Seq<char>| #[trigger] entries_map(n).contains_key(k) == m.contains_key(k) by {
        if entries_map(n).contains_key(k) {
            let j = choose|j: int| 0 <= j < n.len() && (#[trigger] n[j]).0@ == k;
            assert(es[j].0@ == k);
        }
        if entries_map(es).contains_key(k) {
            let j = choose|j: int| 0 <= j < es.len() && (#[trigger] es[j]).0@ == k;
            assert(n[j].0@ == k);
        }
        if k == e.0@ {
            assert(n[i].0@ == k);
        }
    }
    assert forall|k: Seq<char>| #[trigger] entries_map(n).contains_key(k) implies entries_map(n)[k]
        == m[k] by {
        let j = choose|j: int| 0 <= j < n.len() && (#[trigger] n[j]).0@ == k;
        lemma_entries_map_at(n, j);
        if j != i {
            assert(n[j] == es[j]);
            lemma_entries_map_at(es, j);
        }
    }
    assert(entries_map(n) =~= m);
}

/// Adding an entry with a new address keeps the addresses distinct and sets that
/// address in the map.
proof fn lemma_entries_map_push(es: Seq<(String, WorkerStatus)>, e: (String, WorkerStatus))
    requires
        distinct_addresses(es),
        forall|j: int| 0 <= j < es.len() ==> (#[trigger] es[j]).0@ != e.0@,
    ensures
        distinct_addresses(es.push(e)),
        entries_map(es.push(e)) == entries_map(es).insert(e.0@, e.1),
{
    let n = es.push(e);
    assert forall|a: int, b: int| 0 <= a < b < n.len() implies (#[trigger] n[a]).0@
        != (#[trigger] n[b]).0@ by {
        if b < es.len() {
            assert(es[a].0@ != es[b].0@);
        } else {
            assert(n[a] == es[a]);
        }
    }
    let m = entries_map(es).insert(e.0@, e.1);
    assert forall|k: Seq<char>| #[trigger] entries_map(n).contains_key(k) == m.contains_key(k) by {
        if entries_map(n).contains_key(k) {
            let j = choose|j: int| 0 <= j < n.len() && (#[trigger] n[j]).0@ == k;
            if j < es.len() {
                assert(es[j] == n[j]);
            }
        }
        if entries_map(es).contains_key(k) {
            let j = choose|j: int| 0 <= j < es.len() && (#[trigger] es[j]).0@ == k;
            assert(n[j].0@ == k);
        }
        if k == e.0@ {
            assert(n[es.len() as int].0@ == k);
        }
    }
    assert forall|k: Seq<char>| #[trigger] entries_map(n).contains_key(k) implies entries_map(n)[k]
        == m[k] by {
        let j = choose|j: int| 0 <= j < n.len() && (#[trigger] n[j]).0@ == k;
        lemma_entries_map_at(n, j);
        if j < es.len() {
            assert(n[j] == es[j]);
            lemma_entries_map_at(es, j);
        }
    }
    assert(entries_map(n) =~= m);
}

impl Workers {
    /// No machine known.
    pub fn new() -> (w: Self)
        ensures
            w@ == Map::<Seq<char>, WorkerStatus>::empty(),
    {
        let w = Workers { entries: Vec::new() };
        proof {
            assert(w@ =~= Map::<Seq<char>, WorkerStatus>::empty());
        }
        w
    }

    /// Records what the machine at `address` reported, replacing what it reported before.
    pub fn record(&mut self, address: String, status: WorkerStatus)
        ensures
            final(self)@ == old(self)@.insert(address@, status),
    {
        proof {
            use_type_invariant(&*self);
        }
        let ghost es = self.entries@;
        let mut i: usize = 0;
        while i < self.entries.len()
            invariant
                self.entries@ == es,
                old(self)@ == entries_map(es),
                i <= es.len(),
                distinct_addresses(es),
                forall|j: int| 0 <= j < i ==> (#[trigger] es[j]).0@ != address@,
            decreases es.len() - i,
        {
            if same_text(self.entries[i].0.as_str(), address.as_str()) {
                proof {
                    lemma_entries_map_update(es, i as int, (address, status));
                }
                let mut entries: Vec<(String, WorkerStatus)> = Vec::new();
                std::mem::swap(&mut entries, &mut self.entries);
                entries.set(i, (address, status));
                self.entries = entries;
                return ;
            }
            i = i + 1;
        }
        proof {
            lemma_entries_map_push(es, (address, status));
        }
        let mut entries: Vec<(String, WorkerStatus)> = Vec::new();
        std::mem::swap(&mut entries, &mut self.entries);
        entries.push((address, status));
        self.entries = entries;
    }

    /// Gives a line to an available machine, which is then recorded as writing it,
    /// and answers its address; `None`, with nothing changed, when no machine is
    /// available. Which available machine is chosen is left open.
    pub fn assign(&mut self, line: Task) -> (chosen: Option<String>)
        ensures
            chosen is None ==> final(self)@ == old(self)@ && forall|k: Seq<char>| #[trigger]
                old(self)@.contains_key(k) ==> !(old(self)@[k] is Available),
            chosen matches Some(a) ==> {
                &&& old(self)@.contains_key(a@)
                &&& old(self)@[a@] is Available
                &&& final(self)@ == old(self)@.insert(a@, WorkerStatus::Working(line))
            },
    {
        proof {
            use_type_invariant(&*self);
        }
        let ghost es = self.entries@;
        let mut i: usize = 0;
        while i < self.entries.len()
            invariant
                self.entries@ == es,
                old(self)@ == entries_map(es),
                i <= es.len(),
                distinct_addresses(es),
                forall|j: int| 0 <= j < i ==> !((#[trigger] es[j]).1 is Available),
            decreases es.len() - i,
        {
            if self.entries[i].1.is_available() {
                let address = self.entries[i].0.clone();
                proof {
                    lemma_entries_map_at(es, i as int);
                    lemma_entries_map_update(es, i as int, (address, WorkerStatus::Working(line)));
                }
                let chosen = address.clone();
                let mut entries: Vec<(String, WorkerStatus)> = Vec::new();
                std::mem::swap(&mut entries, &mut self.entries);
                entries.set(i, (address, WorkerStatus::Working(line)));
                self.entries = entries;
                return Some(chosen);
            }
            i = i + 1;
        }
        proof {
            assert forall|k: Seq<char>| #[trigger] entries_map(es).contains_key(k) implies !(entries_map(
                es,
            )[k] is Available) by {
                let j = choose|j: int| 0 <= j < es.len() && (#[trigger] es[j]).0@ == k;
                lemma_entries_map_at(es, j);
            }
        }
        None
    }
}

/// A machine that was given a line is not given another one before it reports
/// again: once recorded as writing, it is not available.
pub proof fn lemma_assigned_machine_busy(
    before: Map<Seq<char>, WorkerStatus>,
    address: Seq<char>,
    line: Task,
    other: Seq<char>,
)
    requires
        before.insert(address, WorkerStatus::Working(line)).contains_key(other),
        before.insert(address, WorkerStatus::Working(line))[other] is Available,
    ensures
        other != address,
{
}

/// The machines known are among those polled: recording the report of a polled
/// address keeps every known address among the polled ones, and giving a line to a
/// known machine keeps the known addresses as they are.
pub proof fn lemma_known_machines_polled(
    known: Map<Seq<char>, WorkerStatus>,
    polled: Set<Seq<char>>,
    address: Seq<char>,
    status: WorkerStatus,
    line: Task,
)
    requires
        known.dom().subset_of(polled),
    ensures
        polled.contains(address) ==> known.insert(address, status).dom().subset_of(polled),
        known.contains_key(address) ==> known.insert(address, WorkerStatus::Working(line)).dom()
            == known.dom(),
{
    if known.contains_key(address) {
        assert(known.insert(address, WorkerStatus::Working(line)).dom() =~= known.dom());
    }
}

/// Where one line of a task stands on the server.
pub enum LineStatus {
    NotStarted,
    /// Given to the machine at the address, as the task.
    Assigned(String, Task),
    /// Written by the machine at the address, as the task.
    Completed(String, Task),
}

impl LineStatus {
    /// True when the line has not been given out.
    pub fn is_not_started(&self) -> (r: bool)
        ensures
            r == self is NotStarted,
    {
        matches!(self, LineStatus::NotStarted)
    }

    /// True when a machine is writing the line.
    pub fn is_assigned(&self) -> (r: bool)
        ensures
            r == self is Assigned,
    {
        matches!(self, LineStatus::Assigned(..))
    }

    /// True when the line is written.
    pub fn is_completed(&self) -> (r: bool)
        ensures
            r == self is Completed,
    {
        matches!(self, LineStatus::Completed(..))
    }
}

/// The request that one line of a task makes: the line, with the task's settings.
pub open spec fn params_for_line(task: Task, line: String) -> HandParameters {
    HandParameters {
        text: line,
        style: task.style,
        bias: task.bias,
        color: task.color,
        width: task.width,
    }
}

/// The request for one line of `task`.
pub fn line_params(task: &Task, line: String) -> (p: HandParameters)
    ensures
        p == params_for_line(*task, line),
{
    HandParameters {
        text: line,
        style: task.style,
        bias: task.bias,
        color: copy_opt_text(&task.color),
        width: task.width,
    }
}

/// What a machine is recorded as doing once it was given a line: a task with
/// no id, the line's settings, and no line counts.
pub fn line_task(params: &HandParameters) -> (t: Task)
    ensures
        t.id@ == Seq::<char>::empty(),
        t.text == params.text,
        t.style == params.style,
        t.bias == params.bias,
        t.color == params.color,
        t.width == params.width,
        t.status == TaskStatus::Working(0, 0),
{
    Task {
        id: String::new(),
        text: params.text.clone(),
        style: params.style,
        bias: params.bias,
        color: copy_opt_text(&params.color),
        width: params.width,
        status: TaskStatus::Working(0, 0),
    }
}

/// The line was written: its task ended with a result.
pub open spec fn line_succeeded(t: Task) -> bool {
    t.status matches TaskStatus::Completed(TaskCompleteTypes::Success(_))
}

/// Index of the first line whose task did not end with a result, or the number
/// of lines when all did.
pub fn first_failed_line(results: &Vec<Task>) -> (k: usize)
    ensures
        k <= results@.len(),
        forall|j: int| 0 <= j < k ==> line_succeeded(#[trigger] results@[j]),
        k < results@.len() ==> !line_succeeded(results@[k as int]),
{
    let mut i: usize = 0;
    while i < results.len()
        invariant
            i <= results@.len(),
            forall|j: int| 0 <= j < i ==> line_succeeded(#[trigger] results@[j]),
        decreases results@.len() - i,
    {
        let ok = match &results[i].status {
            TaskStatus::Completed(TaskCompleteTypes::Success(_)) => true,
            _ => false,
        };
        if !ok {
            return i;
        }
        i = i + 1;
    }
    i
}

/// How a task ends once its image was, or was not, made: with the image served at
/// `url`, or failed with the reason.
pub open spec fn finished(url: Seq<char>, image: Result<String, String>, r: TaskStatus) -> bool {
    match image {
        Ok(svg) => r matches TaskStatus::Completed(TaskCompleteTypes::Success(s)) && s.url@ == url
            && s.svg == svg,
        Err(e) => r == TaskStatus::Completed(TaskCompleteTypes::Failed(e)),
    }
}

/// How a task whose lines were joined ends: with the joined image, served as a file,
/// or failed with the reason (a line that was not written, or the joining failed).
pub fn joined_status(id: &str, image: Result<String, String>) -> (r: TaskStatus)
    ensures
        finished("https://handwrite.herokuapp.com/file/"@ + id@ + ".svg"@, image, r),
{
    match image {
        Ok(svg) => TaskStatus::Completed(
            TaskCompleteTypes::Success(SuccessResult { url: file_url(id), svg }),
        ),
        Err(e) => TaskStatus::Completed(TaskCompleteTypes::Failed(e)),
    }
}

/// How a task written whole by a machine ends: with its image, or failed with the
/// reason.
pub fn written_status(id: &str, image: Result<String, String>) -> (r: TaskStatus)
    ensures
        finished("https://handwrite.herokuapp.com/image/"@ + id@ + ".svg"@, image, r),
{
    match image {
        Ok(svg) => TaskStatus::Completed(
            TaskCompleteTypes::Success(SuccessResult { url: image_url(id), svg }),
        ),
        Err(e) => TaskStatus::Completed(TaskCompleteTypes::Failed(e)),
    }
}

/// The settings that a machine writes a task with, where the task gives none:
/// style 0, color "blue", width 1.
pub fn generator_settings(task: &Task) -> (r: (u32, String, u32))
    ensures
        r.0 == match task.style {
            Some(s) => s,
            None => 0,
        },
        r.1@ == match task.color {
            Some(c) => c@,
            None => "blue"@,
        },
        r.2 == match task.width {
            Some(w) => w,
            None => 1,
        },
{
    let style = match task.style {
        Some(s) => s,
        None => 0,
    };
    let color = match &task.color {
        Some(c) => c.clone(),
        None => "blue".to_owned(),
    };
    let width = match task.width {
        Some(w) => w,
        None => 1,
    };
    (style, color, width)
}

} // verus!
