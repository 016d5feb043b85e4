//! The staging area between the clients and the scheduler.
//!
//! Commands and conditional schedulers are not handed to the scheduler
//! directly: they are put in the queues of a [`SchedulerContext`] and taken
//! in at the start of the next tick. A hook can therefore submit a command
//! while the scheduler is at work without touching what the scheduler works
//! on.

use vstd::prelude::*;

use crate::commands::Command;
use crate::conditions::ConditionalScheduler;

verus! {

/// The error of submitting to a context that has no scheduler.
#[derive(Debug, Clone, Copy)]
pub struct WrongThreadError(&'static str);

impl WrongThreadError {
    /// The text of the error.
    pub closed spec fn text(&self) -> Seq<char> {
        self.0@
    }

    /// The error of submitting where no scheduler is bound.
    pub fn no_manager() -> (error: Self)
        ensures
            error.text() == "Can only schedule commands on a thread that has a command manager"@,
    {
        WrongThreadError("Can only schedule commands on a thread that has a command manager")
    }

    /// The text of the error.
    pub fn message(&self) -> (text: &'static str)
        ensures
            text@ == self.text(),
    {
        self.0
    }
}

/// The commands and conditional schedulers handed in since the last tick.
struct ManagerQueue {
    cmd_queue: Vec<Command>,
    cond_queue: Vec<ConditionalScheduler>,
}

/// The staging area of one execution context.
///
/// A context is bound while a scheduler lives in it. Commands submitted to a
/// bound context wait in its queue for the next tick; submitting to a context
/// that is not bound is an error.
pub struct SchedulerContext {
    queue: Option<ManagerQueue>,
}

impl SchedulerContext {
    /// Whether a scheduler is bound to the context.
    pub closed spec fn is_bound(&self) -> bool {
        self.queue is Some
    }

    /// The commands that wait for the next tick, oldest first.
    pub closed spec fn pending_commands(&self) -> Seq<Command> {
        match self.queue {
            Some(queue) => queue.cmd_queue@,
            None => Seq::empty(),
        }
    }

    /// The conditional schedulers that wait for the next tick, oldest first.
    pub closed spec fn pending_conditions(&self) -> Seq<ConditionalScheduler> {
        match self.queue {
            Some(queue) => queue.cond_queue@,
            None => Seq::empty(),
        }
    }

    /// Whether a scheduler is bound to the context.
    pub fn has_manager(&self) -> (bound: bool)
        ensures
            bound == self.is_bound(),
    {
        self.queue.is_some()
    }

    /// Binds a scheduler to the context, with empty queues.
    pub(crate) fn bind(&mut self)
        ensures
            final(self).is_bound(),
            final(self).pending_commands().len() == 0,
            final(self).pending_conditions().len() == 0,
    {
        self.queue = Some(ManagerQueue { cmd_queue: Vec::new(), cond_queue: Vec::new() });
    }

    /// Unbinds the scheduler from the context and drops what waits.
    pub(crate) fn unbind(&mut self)
        ensures
            !final(self).is_bound(),
    {
        self.queue = None;
    }

    /// A context to which no scheduler is bound.
    pub fn new() -> (context: Self)
        ensures
            !context.is_bound(),
            context.pending_commands().len() == 0,
            context.pending_conditions().len() == 0,
    {
        SchedulerContext { queue: None }
    }
}

/// Puts a command in the queue to be scheduled at the next tick.
///
/// # Errors
/// [`WrongThreadError`] if no scheduler is bound to the context; the context
/// is then left as it was.
pub fn schedule(context: &mut SchedulerContext, command: Command) -> (result: Result<
    (),
    WrongThreadError,
>)
    ensures
        result is Ok == old(context).is_bound(),
        final(context).is_bound() == old(context).is_bound(),
        final(context).pending_conditions() == old(context).pending_conditions(),
        final(context).pending_commands() == if old(context).is_bound() {
            old(context).pending_commands().push(command)
        } else {
            old(context).pending_commands()
        },
{
    match &mut context.queue {
        Some(queue) => {
            queue.cmd_queue.push(command);
            Ok(())
        },
        None => Err(WrongThreadError::no_manager()),
    }
}

/// Puts a conditional scheduler in the queue to be added at the next tick.
///
/// # Errors
/// [`WrongThreadError`] if no scheduler is bound to the context; the context
/// is then left as it was.
pub fn add_cond_scheduler(context: &mut SchedulerContext, scheduler: ConditionalScheduler) -> (result:
    Result<(), WrongThreadError>)
    ensures
        result is Ok == old(context).is_bound(),
        final(context).is_bound() == old(context).is_bound(),
        final(context).pending_commands() == old(context).pending_commands(),
        final(context).pending_conditions() == if old(context).is_bound() {
            old(context).pending_conditions().push(scheduler)
        } else {
            old(context).pending_conditions()
        },
{
    match &mut context.queue {
        Some(queue) => {
            queue.cond_queue.push(scheduler);
            Ok(())
        },
        None => Err(WrongThreadError::no_manager()),
    }
}

impl Command {
    /// Schedules this command to run: puts it in the queue of `context`.
    ///
    /// The context must have a scheduler. Use [`Command::try_schedule`]
    /// where that is not known.
    pub fn schedule(self, context: &mut SchedulerContext)
        requires
            old(context).is_bound(),
        ensures
            final(context).is_bound(),
            final(context).pending_commands() == old(context).pending_commands().push(self),
            final(context).pending_conditions() == old(context).pending_conditions(),
    {
        schedule(context, self).unwrap();
    }

    /// Schedules this command to run: puts it in the queue of `context`.
    ///
    /// # Errors
    /// [`WrongThreadError`] if no scheduler is bound to the context; the
    /// context is then left as it was.
    pub fn try_schedule(self, context: &mut SchedulerContext) -> (result: Result<
        (),
        WrongThreadError,
    >)
        ensures
            result is Ok == old(context).is_bound(),
            final(context).is_bound() == old(context).is_bound(),
            final(context).pending_conditions() == old(context).pending_conditions(),
            final(context).pending_commands() == if old(context).is_bound() {
                old(context).pending_commands().push(self)
            } else {
                old(context).pending_commands()
            },
    {
        schedule(context, self)
    }
}

impl SchedulerContext {
    /// Whether every conditional scheduler that waits still holds its
    /// command, as one that was never registered does.
    pub open spec fn conditions_hold_commands(&self) -> bool {
        forall|k: int|
            0 <= k < self.pending_conditions().len() ==> (
            #[trigger] self.pending_conditions()[k]).held_command() is Some
    }

    /// Whether every conditional scheduler that waits still holds its
    /// command.
    pub fn ready_to_drain(&self) -> (ready: bool)
        ensures
            ready == self.conditions_hold_commands(),
    {
        match &self.queue {
            Some(queue) => {
                let mut k: usize = 0;
                while k < queue.cond_queue.len()
                    invariant
                        k <= queue.cond_queue@.len(),
                        self.queue == Some(*queue),
                        forall|j: int|
                            0 <= j < k ==> (#[trigger] queue.cond_queue@[j]).held_command() is Some,
                    decreases queue.cond_queue@.len() - k,
                {
                    if !queue.cond_queue[k].holds_command() {
                        return false;
                    }
                    k += 1;
                }
                true
            },
            None => true,
        }
    }

    /// Hands over everything that waits, as a context of its own, and
    /// leaves the queues empty. Submissions made while the scheduler works
    /// through what was handed over wait for the next tick.
    pub fn take_pending(&mut self) -> (taken: Self)
        ensures
            taken.is_bound() == old(self).is_bound(),
            taken.pending_commands() == old(self).pending_commands(),
            taken.pending_conditions() == old(self).pending_conditions(),
            final(self).is_bound() == old(self).is_bound(),
            final(self).pending_commands().len() == 0,
            final(self).pending_conditions().len() == 0,
    {
        let bound = self.queue.is_some();
        let (cmd_queue, cond_queue) = self.drain();
        SchedulerContext {
            queue: if bound {
                Some(ManagerQueue { cmd_queue, cond_queue })
            } else {
                None
            },
        }
    }

    /// Takes everything that waits out of the queues.
    pub(crate) fn drain(&mut self) -> (drained: (Vec<Command>, Vec<ConditionalScheduler>))
        ensures
            drained.0@ == old(self).pending_commands(),
            drained.1@ == old(self).pending_conditions(),
            final(self).is_bound() == old(self).is_bound(),
            final(self).pending_commands().len() == 0,
            final(self).pending_conditions().len() == 0,
    {
        let mut commands: Vec<Command> = Vec::new();
        let mut conditions: Vec<ConditionalScheduler> = Vec::new();
        match &mut self.queue {
            Some(queue) => {
                std::mem::swap(&mut commands, &mut queue.cmd_queue);
                std::mem::swap(&mut conditions, &mut queue.cond_queue);
            },
            None => {},
        }
        (commands, conditions)
    }
}

} // verus!
