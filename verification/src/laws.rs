//! What holds of every scheduler.
//!
//! The laws are stated over the state of the scheduler and proved from its
//! invariant, which every operation keeps.

use std::time::Duration;
use vstd::prelude::*;

use crate::commands::Command;
use crate::history::{
    hooks_of, lemma_end_between, lemma_init_before, lemma_ordered_prefix, lemma_started_after,
    started, HookCall,
};
use crate::leaves::{cycle_calls, LifecycleCall};
use crate::requirement::SubsystemSUID;
use crate::state::{CommandIndex, SchedulerState, Slot};
use crate::time::duration_nanos;
use crate::transitions::Visit;

verus! {

/// Ownership.
impl SchedulerState {
    /// A subsystem has at most one owner.
    pub proof fn lemma_one_owner(
        self,
        suid: SubsystemSUID,
        first: CommandIndex,
        second: CommandIndex,
    )
        requires
            self.owners.contains_pair(suid, first),
            self.owners.contains_pair(suid, second),
        ensures
            first == second,
    {
    }

    /// The owner of a subsystem is entitled to it: it is tracked, and it is
    /// either the default of the subsystem or a command that is held and
    /// requires the subsystem.
    pub proof fn lemma_owner_entitled(self, suid: SubsystemSUID)
        requires
            self.wf(),
            self.owners.contains_key(suid),
        ensures
            self.interrupt_state().contains_key(self.owners[suid]),
            self.owners[suid].is_default() ==> self.defaults.contains_pair(suid, self.owners[suid]),
            !self.owners[suid].is_default() ==> self.holds(self.owners[suid]) && self.needs(
                self.owners[suid],
            ).contains(suid),
    {
        assert(self.owner_consistent(suid));
    }

    /// Two scheduled commands that both own a subsystem, neither marked to
    /// be interrupted, require no subsystem in common.
    pub proof fn lemma_claims_disjoint(self, first: CommandIndex, second: CommandIndex)
        requires
            self.wf(),
            self.in_range(first),
            self.in_range(second),
            first != second,
            !first.is_default(),
            !second.is_default(),
            self.owns_some(first),
            self.owns_some(second),
            self.interrupt_state().contains_pair(first, false),
            self.interrupt_state().contains_pair(second, false),
        ensures
            self.needs(first).disjoint(self.needs(second)),
    {
        assert(self.claims_honoured(first));
        assert(self.claims_honoured(second));
        assert forall|suid: SubsystemSUID|
            !(self.needs(first).contains(suid) && self.needs(second).contains(suid)) by {
            if self.needs(first).contains(suid) && self.needs(second).contains(suid) {
                assert(self.owners.contains_pair(suid, first));
                assert(self.owners.contains_pair(suid, second));
            }
        }
    }
}

/// Bookkeeping.
impl SchedulerState {
    /// A command that is initialised is held, is ready to run, and has its
    /// interruption state defined.
    pub proof fn lemma_initialized_tracked(self, index: CommandIndex)
        requires
            self.wf(),
            self.initialized().contains(index),
        ensures
            self.interrupt_state().contains_key(index),
            self.holds(index),
            self.command_at(index).ready(),
    {
        assert(self.slot_consistent(index));
    }

    /// The commands noted as initialised are those whose `init` has been
    /// called and whose `end` has not been called since.
    pub proof fn lemma_initialized_is_started(self, index: CommandIndex)
        requires
            self.wf(),
        ensures
            self.initialized().contains(index) <==> started(self.history, index),
    {
        assert(self.history_agrees(index));
    }

    /// Admission leaves the set of initialised commands as it is.
    pub proof fn lemma_admission_keeps_initialized(self, index: CommandIndex)
        requires
            self.in_range(index),
        ensures
            self.admitted(index).initialized() == self.initialized(),
    {
        assert(self.admitted(index).initialized() =~= self.initialized());
    }

    /// Admitting a command a second time changes nothing: a command does
    /// not refuse itself, and what it owns it keeps.
    pub proof fn lemma_admission_idempotent(self, index: CommandIndex)
        requires
            self.wf(),
            self.holds(index),
            !index.is_default(),
            !self.refuses_admission(index),
        ensures
            !self.admitted(index).refuses_admission(index),
            self.admitted(index).admitted(index) == self.admitted(index),
    {
        let once = self.admitted(index);
        let twice = once.admitted(index);
        let needs = self.needs(index);
        assert(once.needs(index) == needs);
        if needs == Set::<SubsystemSUID>::empty() {
            assert(twice.slots =~= once.slots);
        } else {
            assert forall|other: CommandIndex| once.incumbent(needs, other) implies other
                == index by {
                let suid = choose|suid: SubsystemSUID|
                    needs.contains(suid) && once.owners.contains_pair(suid, other);
            }
            assert(!once.refuses(needs, index));
            assert(twice.slots =~= once.slots);
            assert(twice.owners =~= once.owners);
        }
    }
}

/// Visits.
impl SchedulerState {
    /// A visit calls `init` only on a command that is not initialised: by
    /// the history, `init` has not been called on it, or `end` has been
    /// called since.
    pub proof fn lemma_init_once(self, index: CommandIndex, finished: bool)
        requires
            self.wf(),
            self.watched(index),
            Visit::planned(self.slot(index)).calls(finished).contains(HookCall::Init),
        ensures
            !self.initialized().contains(index),
            !started(self.history, index),
    {
        let plan = Visit::planned(self.slot(index));
        let calls = plan.calls(finished);
        let i = choose|i: int| 0 <= i < calls.len() && calls[i] == HookCall::Init;
        assert(plan is Start);
        assert(self.history_agrees(index));
    }

    /// A command that is initialised is never initialised again by a visit.
    pub proof fn lemma_initialized_not_started(slot: Slot)
        requires
            slot.initialized,
        ensures
            !Visit::planned(slot).calls_init(),
    {
    }

    /// A visit calls `end` at most once, as the last call, and exactly when
    /// the command leaves the scheduler's care.
    pub proof fn lemma_end_once(self, index: CommandIndex, left: Command, finished: bool)
        requires
            self.watched(index),
        ensures
            ({
                let plan = Visit::planned(self.slot(index));
                let calls = plan.calls(finished);
                &&& forall|i: int| 0 <= i < calls.len() - 1 ==> !(#[trigger] calls[i] is End)
                &&& calls.last() is End <==> plan.ends(finished)
                &&& plan.ends(finished) <==> !self.visited(index, left, finished).watched(index)
                &&& calls.last() is End ==> calls.last() == HookCall::End(plan.end_flag())
            }),
    {
    }

    /// A visit ends a command exactly when the command is marked to be
    /// interrupted or reports that it is finished, and it hands `end` the
    /// flag `true` exactly in the first case.
    pub proof fn lemma_end_flag(slot: Slot, finished: bool)
        ensures
            Visit::planned(slot).ends(finished) <==> slot.interrupt == Some(true) || finished,
            Visit::planned(slot).end_flag() <==> slot.interrupt == Some(true),
            Visit::planned(slot).end_flag() ==> !Visit::planned(slot).runs(),
    {
    }

    /// A command that a visit has ended is no longer visited: it is not
    /// active, not initialised, and not tracked. It is ended again only
    /// after it has been admitted again.
    pub proof fn lemma_ended_is_inactive(self, index: CommandIndex, left: Command, finished: bool)
        requires
            self.watched(index),
            Visit::planned(self.slot(index)).ends(finished),
        ensures
            !self.visited(index, left, finished).is_active(index),
            !self.visited(index, left, finished).initialized().contains(index),
            !self.visited(index, left, finished).watched(index),
    {
    }

    /// Only calls made on a command change whether it is started: a visit
    /// to one place leaves the history of every other command as it was.
    pub proof fn lemma_history_of_others(
        self,
        index: CommandIndex,
        left: Command,
        finished: bool,
        other: CommandIndex,
    )
        requires
            other != index,
        ensures
            started(self.visited(index, left, finished).history, other) == started(
                self.history,
                other,
            ),
    {
        if self.watched(index) {
            lemma_started_after(
                self.history,
                index,
                Visit::planned(self.slot(index)).calls(finished),
                other,
            );
        }
    }

    /// A visit changes no place but the one visited, and marks no command.
    pub proof fn lemma_visit_frame(
        self,
        index: CommandIndex,
        left: Command,
        finished: bool,
        other: CommandIndex,
    )
        requires
            self.wf(),
        ensures
            self.visited(index, left, finished).in_range(other) == self.in_range(other),
            other != index ==> self.visited(index, left, finished).slot(other) == self.slot(other),
            !self.visited(index, left, finished).flagged(index),
            self.visited(index, left, finished).flagged(other) ==> self.flagged(other),
    {
        if self.in_range(index) {
            assert(self.slot_consistent(index));
        }
    }
}

/// Ticks.
impl SchedulerState {
    /// Visits change no place that is not visited.
    pub proof fn lemma_tick_untouched(
        self,
        order: Seq<CommandIndex>,
        lefts: Seq<Command>,
        answers: Seq<bool>,
        other: CommandIndex,
    )
        requires
            self.wf(),
            self.visits_fit(order, lefts, answers),
            !order.contains(other),
        ensures
            self.visited_all(order, lefts, answers).in_range(other) == self.in_range(other),
            self.visited_all(order, lefts, answers).slot(other) == self.slot(other),
        decreases order.len(),
    {
        if order.len() > 0 {
            let rest = order.drop_last();
            assert(!rest.contains(other)) by {
                if rest.contains(other) {
                    let j = choose|j: int| 0 <= j < rest.len() && rest[j] == other;
                    assert(order[j] == other);
                }
            }
            assert(order[order.len() - 1] != other);
            self.lemma_tick_untouched(rest, lefts.drop_last(), answers.drop_last(), other);
            self.lemma_visited_all_wf(rest, lefts.drop_last(), answers.drop_last());
            self.visited_all(rest, lefts.drop_last(), answers.drop_last()).lemma_visit_frame(
                order.last(),
                lefts.last(),
                answers.last(),
                other,
            );
        }
    }

    /// A command that is marked after visits was marked before and has not
    /// been visited.
    pub proof fn lemma_marks_after_visits(
        self,
        order: Seq<CommandIndex>,
        lefts: Seq<Command>,
        answers: Seq<bool>,
        other: CommandIndex,
    )
        requires
            self.wf(),
            self.visits_fit(order, lefts, answers),
            self.visited_all(order, lefts, answers).flagged(other),
        ensures
            self.flagged(other),
            !order.contains(other),
        decreases order.len(),
    {
        if order.len() > 0 {
            let rest = order.drop_last();
            let before = self.visited_all(rest, lefts.drop_last(), answers.drop_last());
            self.lemma_visited_all_wf(rest, lefts.drop_last(), answers.drop_last());
            before.lemma_visit_frame(order.last(), lefts.last(), answers.last(), other);
            self.lemma_marks_after_visits(rest, lefts.drop_last(), answers.drop_last(), other);
            assert(order.last() != other);
            if order.contains(other) {
                let j = choose|j: int| 0 <= j < order.len() && order[j] == other;
                assert(rest[j] == other);
            }
        }
    }

    /// When every active place has been visited, no command is left marked
    /// to be interrupted.
    pub proof fn lemma_tick_clears_marks(
        self,
        order: Seq<CommandIndex>,
        lefts: Seq<Command>,
        answers: Seq<bool>,
    )
        requires
            self.wf(),
            self.visits_fit(order, lefts, answers),
            forall|index: CommandIndex| self.is_active(index) ==> order.contains(index),
        ensures
            forall|index: CommandIndex| !self.visited_all(order, lefts, answers).flagged(index),
    {
        assert forall|index: CommandIndex| !self.visited_all(order, lefts, answers).flagged(
            index,
        ) by {
            if self.visited_all(order, lefts, answers).flagged(index) {
                self.lemma_marks_after_visits(order, lefts, answers, index);
                assert(self.is_active(index));
            }
        }
    }
}

/// The lifecycle, read off the history.
impl SchedulerState {
    /// No command is initialised twice without being ended in between.
    pub proof fn lemma_no_double_init(self, first: int, second: int)
        requires
            self.wf(),
            0 <= first < second < self.history.len(),
            self.history[first].call is Init,
            self.history[second].call is Init,
            self.history[first].index == self.history[second].index,
        ensures
            exists|k: int|
                first < k < second && (#[trigger] self.history[k]).index == self.history[first].index
                    && self.history[k].call is End,
    {
        let history = self.history;
        let index = history[first].index;
        lemma_ordered_prefix(history, second + 1);
        let upto = history.take(second + 1);
        assert(upto.drop_last() =~= history.take(second));
        assert(upto.last() == history[second]);
        assert(!started(history.take(second), index));
        let begun = history.take(first + 1);
        assert(begun.last() == history[first]);
        assert(started(begun, index));
        lemma_end_between(history, index, first + 1, second);
    }

    /// `periodic` and `is_finished` are called on a command only after its
    /// `init` and before its `end`.
    pub proof fn lemma_runs_while_started(self, at: int)
        requires
            self.wf(),
            0 <= at < self.history.len(),
            self.history[at].call is Periodic || self.history[at].call is IsFinished,
        ensures
            exists|i: int|
                {
                    &&& 0 <= i < at
                    &&& (#[trigger] self.history[i]).index == self.history[at].index
                    &&& self.history[i].call is Init
                    &&& forall|k: int|
                        i < k < at ==> !((#[trigger] self.history[k]).index == self.history[at].index
                            && self.history[k].call is End)
                },
    {
        let history = self.history;
        let index = history[at].index;
        lemma_ordered_prefix(history, at + 1);
        let upto = history.take(at + 1);
        assert(upto.drop_last() =~= history.take(at));
        assert(upto.last() == history[at]);
        assert(started(history.take(at), index));
        lemma_init_before(history, index, at);
    }
}

/// The two records.
impl SchedulerState {
    /// The record of a command and the history of the scheduler agree. What
    /// a visit adds to the command's own record is, hook by hook, what it
    /// adds to the history, with the period or flag that was handed in.
    pub proof fn lemma_visit_on_record(self, index: CommandIndex, left: Command, finished: bool)
        requires
            self.watched(index),
            self.visit_fits(index, left, finished),
        ensures
            exists|calls: Seq<LifecycleCall>|
                {
                    &&& left.calls() == self.command_at(index).calls() + calls
                    &&& #[trigger] hooks_of(calls) == Visit::planned(self.slot(index)).calls(
                        finished,
                    )
                },
    {
        let plan = Visit::planned(self.slot(index));
        let command = self.command_at(index);
        match plan {
            Visit::Interrupt => {
                left.lemma_follows(&command, LifecycleCall::End(true));
                let calls = seq![LifecycleCall::End(true)];
                assert(left.calls() =~= command.calls() + calls);
                assert(hooks_of(calls) =~= plan.calls(finished));
            },
            Visit::Start => {
                let (started, period) = choose|started: Command, period: Duration|
                    {
                        &&& started.follows(&command, LifecycleCall::Init)
                        &&& duration_nanos(period) == 0
                        &&& #[trigger] left.cycled(&started, period, finished)
                    };
                started.lemma_follows(&command, LifecycleCall::Init);
                left.lemma_cycled(&started, period, finished);
                let calls = seq![LifecycleCall::Init] + cycle_calls(period, finished);
                assert(left.calls() =~= command.calls() + calls);
                assert(hooks_of(calls) =~= plan.calls(finished));
            },
            Visit::Continue => {
                let period = choose|period: Duration| #[trigger]
                    left.cycled(&command, period, finished);
                left.lemma_cycled(&command, period, finished);
                let calls = cycle_calls(period, finished);
                assert(hooks_of(calls) =~= plan.calls(finished));
            },
        }
    }
}

} // verus!
