//! The card that shows one task: polling its state, and what it says meanwhile.

use vstd::prelude::*;
use vstd::string::StringExecFns;
use crate::ident::{decimal_digits, decimal_text};
use crate::task::{lemma_same_status_exact, same_task, tasks_equal, Task, TaskCompleteTypes, TaskStatus};

verus! {

/// What happens to the card.
pub enum Msg {
    /// Time to ask for the task's state again.
    Tick,
    /// The request for the state failed.
    UpdateFail,
    /// The server answered with the task as it stands.
    Update(Task),
}

/// What the card is created with.
pub struct Props {
    pub task: Task,
}

/// The state of the card: the task as last known, and whether a request for its
/// state is on its way.
pub struct WrImage {
    pub task: Task,
    pub reqwest_waiting: bool,
}

impl WrImage {
    /// A card for the given task, with nothing on its way.
    pub fn create(props: Props) -> (w: Self)
        ensures
            w.task == props.task,
            !w.reqwest_waiting,
    {
        WrImage { task: props.task, reqwest_waiting: false }
    }

    /// Takes new properties: the card holds the given task, and is shown again when
    /// that task differs from the one it held (the bias compared by its bits).
    pub fn change(&mut self, props: Props) -> (r: bool)
        ensures
            final(self).task == props.task,
            final(self).reqwest_waiting == old(self).reqwest_waiting,
            r == !same_task(props.task, old(self).task),
            props.task.id@ != old(self).task.id@ ==> r,
            props.task.status is Waiting && old(self).task.status is Waiting
                && props.task.status->Waiting_0 != old(self).task.status->Waiting_0 ==> r,
            props.task.status is Working && old(self).task.status is Working && (
            props.task.status->Working_0 != old(self).task.status->Working_0
                || props.task.status->Working_1 != old(self).task.status->Working_1) ==> r,
    {
        proof {
            lemma_same_status_exact(props.task.status, old(self).task.status);
        }
        let differs = !tasks_equal(&props.task, &self.task);
        self.task = props.task;
        differs
    }

    /// Takes a message; answers whether to show the card again, and the id of the
    /// task whose state is to be asked for, if any.
    pub fn update(&mut self, msg: Msg) -> (r: (bool, Option<String>))
        ensures
            match msg {
                Msg::Tick => if old(self).task.status is Completed {
                    &&& *final(self) == *old(self)
                    &&& r == (false, None::<String>)
                } else {
                    &&& final(self).task == old(self).task
                    &&& final(self).reqwest_waiting
                    &&& !r.0
                    &&& r.1 == Some(old(self).task.id)
                },
                Msg::UpdateFail => {
                    &&& final(self).task == old(self).task
                    &&& !final(self).reqwest_waiting
                    &&& r == (false, None::<String>)
                },
                Msg::Update(task) => {
                    &&& final(self).task == task
                    &&& !final(self).reqwest_waiting
                    &&& r == (true, None::<String>)
                },
            },
    {
        match msg {
            Msg::Tick => {
                if self.task.status.is_completed() {
                    (false, None)
                } else {
                    let id = self.task.id.clone();
                    self.reqwest_waiting = true;
                    (false, Some(id))
                }
            },
            Msg::UpdateFail => {
                self.reqwest_waiting = false;
                (false, None)
            },
            Msg::Update(task) => {
                self.reqwest_waiting = false;
                self.task = task;
                (true, None)
            },
        }
    }
}

/// Where the state of a task is asked for.
pub fn status_url(server: &str, id: &str) -> (url: String)
    ensures
        url@ == server@ + "/status/"@ + id@,
{
    let mut url = server.to_owned();
    url.append("/status/");
    url.append(id);
    url
}

/// What the card says while the task waits at the given position.
pub fn queue_message(position: u32) -> (m: String)
    ensures
        m@ == "Image Loading. Queue Position : "@ + decimal_digits(position as nat),
{
    let mut m = "Image Loading. Queue Position : ".to_owned();
    let n = decimal_text(position);
    m.append(n.as_str());
    m
}

/// What the card shows for a task.
#[derive(Debug, PartialEq, Eq)]
pub enum Card {
    /// Still waiting: the message with the queue position.
    Loading(String),
    /// Being written: lines done, lines in all, shown as progress.
    Working(u32, u32),
    /// Written: the image, as SVG text.
    Success(String),
    /// Failed: the reason.
    Failed(String),
}

/// What the card shows for a task in the given state.
pub fn card(status: &TaskStatus) -> (c: Card)
    ensures
        match status {
            TaskStatus::Waiting(p) => c matches Card::Loading(m) && m@
                == "Image Loading. Queue Position : "@ + decimal_digits(*p as nat),
            TaskStatus::Working(d, t) => c == Card::Working(*d, *t),
            TaskStatus::Completed(TaskCompleteTypes::Success(r)) => c == Card::Success(r.svg),
            TaskStatus::Completed(TaskCompleteTypes::Failed(e)) => c == Card::Failed(*e),
        },
{
    match status {
        TaskStatus::Waiting(p) => Card::Loading(queue_message(*p)),
        TaskStatus::Working(d, t) => Card::Working(*d, *t),
        TaskStatus::Completed(TaskCompleteTypes::Success(r)) => Card::Success(r.svg.clone()),
        TaskStatus::Completed(TaskCompleteTypes::Failed(e)) => Card::Failed(e.clone()),
    }
}

} // verus!
