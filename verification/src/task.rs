//! The records that the service keeps and sends: tasks, their states and results.

use vstd::prelude::*;
use vstd::string::StringSliceAdditionalSpecFns;
use vstd::utf8::encode_utf8_decode_utf8;

verus! {

/// True when the two texts are the same.
pub fn same_text(a: &str, b: &str) -> (r: bool)
    ensures
        r == (a@ == b@),
{
    let x = a.as_bytes();
    let y = b.as_bytes();
    if x.len() != y.len() {
        return false;
    }
    let mut i: usize = 0;
    while i < x.len()
        invariant
            x@.len() == y@.len(),
            x@ == a.spec_bytes(),
            y@ == b.spec_bytes(),
            forall|j: int| 0 <= j < i ==> x@[j] == y@[j],
        decreases x@.len() - i,
    {
        if x[i] != y[i] {
            return false;
        }
        i = i + 1;
    }
    proof {
        assert(x@ =~= y@);
        encode_utf8_decode_utf8(a@);
        encode_utf8_decode_utf8(b@);
    }
    true
}

/// Clones an optional string; the copy holds the same text.
pub fn copy_opt_text(s: &Option<String>) -> (r: Option<String>)
    ensures
        r == *s,
{
    match s {
        Some(t) => Some(t.clone()),
        None => None,
    }
}

/// What a finished handwriting task produced.
#[derive(Debug, PartialEq, Eq)]
pub struct SuccessResult {
    /// Where the image can be fetched.
    pub url: String,
    /// The image itself, as SVG text.
    pub svg: String,
}

impl Clone for SuccessResult {
    fn clone(&self) -> (r: Self)
        ensures
            r == *self,
    {
        SuccessResult { url: self.url.clone(), svg: self.svg.clone() }
    }
}

/// How a task ended.
#[derive(Debug, PartialEq, Eq)]
pub enum TaskCompleteTypes {
    Success(SuccessResult),
    /// The task failed; the text says why.
    Failed(String),
}

impl Clone for TaskCompleteTypes {
    fn clone(&self) -> (r: Self)
        ensures
            r == *self,
    {
        match self {
            TaskCompleteTypes::Success(s) => TaskCompleteTypes::Success(s.clone()),
            TaskCompleteTypes::Failed(e) => TaskCompleteTypes::Failed(e.clone()),
        }
    }
}

impl TaskCompleteTypes {
    /// The result, when the task succeeded.
    pub fn as_success(&self) -> (r: Option<&SuccessResult>)
        ensures
            match self {
                TaskCompleteTypes::Success(v) => r == Some(v),
                TaskCompleteTypes::Failed(_) => r is None,
            },
    {
        if let TaskCompleteTypes::Success(v) = self {
            Some(v)
        } else {
            None
        }
    }
}

/// Where a task stands.
#[derive(Debug, PartialEq, Eq)]
pub enum TaskStatus {
    /// Being written: lines done, lines in all.
    Working(u32, u32),
    /// Waiting in the queue, at the given position (counted from 1).
    Waiting(u32),
    Completed(TaskCompleteTypes),
}

impl Clone for TaskStatus {
    fn clone(&self) -> (r: Self)
        ensures
            r == *self,
    {
        match self {
            TaskStatus::Working(d, t) => TaskStatus::Working(*d, *t),
            TaskStatus::Waiting(p) => TaskStatus::Waiting(*p),
            TaskStatus::Completed(c) => TaskStatus::Completed(c.clone()),
        }
    }
}

impl TaskStatus {
    /// True when the task waits in the queue.
    pub fn is_waiting(&self) -> (r: bool)
        ensures
            r == self is Waiting,
    {
        matches!(self, TaskStatus::Waiting(..))
    }

    /// True when the task has ended, well or not.
    pub fn is_completed(&self) -> (r: bool)
        ensures
            r == self is Completed,
    {
        matches!(self, TaskStatus::Completed(..))
    }

    /// True when the task is being written.
    pub fn is_working(&self) -> (r: bool)
        ensures
            r == self is Working,
    {
        matches!(self, TaskStatus::Working(..))
    }

    /// How the task ended, when it has.
    pub fn as_completed(&self) -> (r: Option<&TaskCompleteTypes>)
        ensures
            match self {
                TaskStatus::Completed(v) => r == Some(v),
                _ => r is None,
            },
    {
        if let TaskStatus::Completed(v) = self {
            Some(v)
        } else {
            None
        }
    }
}

/// A request to write a text by hand, with where it stands.
#[derive(Debug, PartialEq, Eq)]
pub struct Task {
    pub id: String,
    pub text: String,
    pub style: Option<u32>,
    /// The bit pattern (`f32::to_bits`) of the sampling bias.
    pub bias: Option<u32>,
    pub color: Option<String>,
    pub width: Option<u32>,
    pub status: TaskStatus,
}

impl Clone for Task {
    fn clone(&self) -> (r: Self)
        ensures
            r == *self,
    {
        Task {
            id: self.id.clone(),
            text: self.text.clone(),
            style: self.style,
            bias: self.bias,
            color: copy_opt_text(&self.color),
            width: self.width,
            status: self.status.clone(),
        }
    }
}

/// What a writing machine reports about itself.
#[derive(Debug, PartialEq, Eq)]
pub enum WorkerStatus {
    Available,
    Working(Task),
}

impl Clone for WorkerStatus {
    fn clone(&self) -> (r: Self)
        ensures
            r == *self,
    {
        match self {
            WorkerStatus::Available => WorkerStatus::Available,
            WorkerStatus::Working(t) => WorkerStatus::Working(t.clone()),
        }
    }
}

impl WorkerStatus {
    /// True when the machine can take a line.
    pub fn is_available(&self) -> (r: bool)
        ensures
            r == self is Available,
    {
        matches!(self, WorkerStatus::Available)
    }

    /// True when the machine is writing.
    pub fn is_working(&self) -> (r: bool)
        ensures
            r == self is Working,
    {
        matches!(self, WorkerStatus::Working(..))
    }
}

/// What a client asks to have written.
#[derive(Debug, PartialEq, Eq)]
pub struct HandParameters {
    pub text: String,
    pub style: Option<u32>,
    /// The bit pattern (`f32::to_bits`) of the sampling bias.
    pub bias: Option<u32>,
    pub color: Option<String>,
    pub width: Option<u32>,
}

impl Clone for HandParameters {
    fn clone(&self) -> (r: Self)
        ensures
            r == *self,
    {
        HandParameters {
            text: self.text.clone(),
            style: self.style,
            bias: self.bias,
            color: copy_opt_text(&self.color),
            width: self.width,
        }
    }
}

/// Two optional texts hold the same text, or none.
pub open spec fn same_opt_text(a: Option<String>, b: Option<String>) -> bool {
    match (a, b) {
        (Some(x), Some(y)) => x@ == y@,
        (None, None) => true,
        _ => false,
    }
}

/// Two states say the same: same variant, same numbers, same texts.
pub open spec fn same_status(a: TaskStatus, b: TaskStatus) -> bool {
    match (a, b) {
        (TaskStatus::Working(d1, t1), TaskStatus::Working(d2, t2)) => d1 == d2 && t1 == t2,
        (TaskStatus::Waiting(p1), TaskStatus::Waiting(p2)) => p1 == p2,
        (
            TaskStatus::Completed(TaskCompleteTypes::Success(r1)),
            TaskStatus::Completed(TaskCompleteTypes::Success(r2)),
        ) => r1.url@ == r2.url@ && r1.svg@ == r2.svg@,
        (
            TaskStatus::Completed(TaskCompleteTypes::Failed(e1)),
            TaskStatus::Completed(TaskCompleteTypes::Failed(e2)),
        ) => e1@ == e2@,
        _ => false,
    }
}

/// Two tasks say the same in every field; the bias is compared by its bits.
pub open spec fn same_task(a: Task, b: Task) -> bool {
    &&& a.id@ == b.id@
    &&& a.text@ == b.text@
    &&& a.style == b.style
    &&& a.bias == b.bias
    &&& same_opt_text(a.color, b.color)
    &&& a.width == b.width
    &&& same_status(a.status, b.status)
}

/// Two states are the same exactly when they are the same variant with the same
/// numbers (queue position; lines done and in all) and the same texts.
pub proof fn lemma_same_status_exact(a: TaskStatus, b: TaskStatus)
    ensures
        a is Waiting && b is Waiting ==> (same_status(a, b) <==> a->Waiting_0 == b->Waiting_0),
        a is Working && b is Working ==> (same_status(a, b) <==> a->Working_0 == b->Working_0
            && a->Working_1 == b->Working_1),
        (a is Waiting) != (b is Waiting) ==> !same_status(a, b),
        (a is Working) != (b is Working) ==> !same_status(a, b),
        (a is Completed) != (b is Completed) ==> !same_status(a, b),
        match (a, b) {
            (
                TaskStatus::Completed(TaskCompleteTypes::Success(r1)),
                TaskStatus::Completed(TaskCompleteTypes::Success(r2)),
            ) => same_status(a, b) <==> r1.url@ == r2.url@ && r1.svg@ == r2.svg@,
            (
                TaskStatus::Completed(TaskCompleteTypes::Failed(e1)),
                TaskStatus::Completed(TaskCompleteTypes::Failed(e2)),
            ) => same_status(a, b) <==> e1@ == e2@,
            (
                TaskStatus::Completed(TaskCompleteTypes::Success(_)),
                TaskStatus::Completed(TaskCompleteTypes::Failed(_)),
            ) => !same_status(a, b),
            _ => true,
        },
{
}

/// Two tasks are the same exactly when every field holds the same: the same id and
/// text, style, bias bits, color text and width, and the same state.
pub proof fn lemma_same_task_exact(a: Task, b: Task)
    ensures
        same_task(a, b) <==> {
            &&& a.id@ == b.id@
            &&& a.text@ == b.text@
            &&& a.style == b.style
            &&& a.bias == b.bias
            &&& a.color is Some == b.color is Some
            &&& (a.color is Some ==> a.color->0@ == b.color->0@)
            &&& a.width == b.width
            &&& same_status(a.status, b.status)
        },
{
}

fn opt_text_equal(a: &Option<String>, b: &Option<String>) -> (r: bool)
    ensures
        r == same_opt_text(*a, *b),
{
    match (a, b) {
        (Some(x), Some(y)) => same_text(x.as_str(), y.as_str()),
        (None, None) => true,
        _ => false,
    }
}

fn status_equal(a: &TaskStatus, b: &TaskStatus) -> (r: bool)
    ensures
        r == same_status(*a, *b),
{
    match (a, b) {
        (TaskStatus::Working(d1, t1), TaskStatus::Working(d2, t2)) => *d1 == *d2 && *t1 == *t2,
        (TaskStatus::Waiting(p1), TaskStatus::Waiting(p2)) => *p1 == *p2,
        (
            TaskStatus::Completed(TaskCompleteTypes::Success(r1)),
            TaskStatus::Completed(TaskCompleteTypes::Success(r2)),
        ) => same_text(r1.url.as_str(), r2.url.as_str()) && same_text(
            r1.svg.as_str(),
            r2.svg.as_str(),
        ),
        (
            TaskStatus::Completed(TaskCompleteTypes::Failed(e1)),
            TaskStatus::Completed(TaskCompleteTypes::Failed(e2)),
        ) => same_text(e1.as_str(), e2.as_str()),
        _ => false,
    }
}

/// True when the two tasks say the same in every field (the bias by its bits).
pub fn tasks_equal(a: &Task, b: &Task) -> (r: bool)
    ensures
        r == same_task(*a, *b),
{
    same_text(a.id.as_str(), b.id.as_str()) && same_text(a.text.as_str(), b.text.as_str())
        && a.style == b.style && a.bias == b.bias && opt_text_equal(&a.color, &b.color)
        && a.width == b.width && status_equal(&a.status, &b.status)
}

} // verus!
