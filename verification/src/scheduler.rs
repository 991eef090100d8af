//! The order in which suspended tasks are polled.
//!
//! Every task gets a priority when it is spawned and keeps it for life. The
//! scheduler hands out one task at a time, the one with the highest
//! priority, and takes it back if polling found it not ready. Polling itself
//! is the caller's business.
use crate::queue::{is_next_up, next_up, PriorityQueue};
use vstd::prelude::*;

verus! {

/// What polling a task reported.
#[derive(Clone, Copy, Debug, PartialEq, Eq)]
pub enum Polled {
    /// The task is not ready and has to be polled again.
    Pending,
    /// The task has finished.
    Ready,
}

/// Tasks that wait to be polled.
pub struct Scheduler<T> {
    tasks: PriorityQueue<T>,
}

impl<T> View for Scheduler<T> {
    type V = Seq<(u64, T)>;

    /// The tasks that wait, each with its priority, in the order in which
    /// they were spawned or put back.
    closed spec fn view(&self) -> Seq<(u64, T)> {
        self.tasks@
    }
}

impl<T> Scheduler<T> {
    /// A scheduler without tasks.
    pub fn new() -> (scheduler: Self)
        ensures
            scheduler@ == Seq::<(u64, T)>::empty(),
    {
        Scheduler { tasks: PriorityQueue::new() }
    }

    /// Takes a new task under the priority that it will keep.
    pub fn spawn(&mut self, priority: u64, task: T)
        ensures
            final(self)@ == old(self)@.push((priority, task)),
    {
        self.tasks.push(priority, task);
    }

    /// Whether no task is left. The run is over then.
    pub fn is_done(&self) -> (done: bool)
        ensures
            done == (self@.len() == 0),
    {
        self.tasks.is_empty()
    }

    /// Hands out the task to poll next, with its priority, or `None` where
    /// no task is left. The task is out of the scheduler while it is polled,
    /// so no other task can be handed out in its place.
    pub fn take_next(&mut self) -> (task: Option<(u64, T)>)
        ensures
            task is None == (old(self)@.len() == 0),
            task is None ==> *final(self) == *old(self),
            task matches Some(entry) ==> is_next_up(old(self)@, next_up(old(self)@)) && entry
                == old(self)@[next_up(old(self)@)] && final(self)@ == old(self)@.remove(
                next_up(old(self)@),
            ),
    {
        self.tasks.pop()
    }

    /// Settles a task that was polled: a task that is not ready goes back
    /// under the priority it had, and a task that is ready is dropped.
    pub fn settle(&mut self, priority: u64, task: T, polled: Polled)
        ensures
            final(self)@ == match polled {
                Polled::Pending => old(self)@.push((priority, task)),
                Polled::Ready => old(self)@,
            },
    {
        match polled {
            Polled::Pending => self.tasks.push(priority, task),
            Polled::Ready => {},
        }
    }
}

} // verus!
