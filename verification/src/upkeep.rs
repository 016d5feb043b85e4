//! Every change of the state keeps the invariant.

use std::time::Duration;
use vstd::prelude::*;

use crate::commands::Command;
use crate::conditions::ConditionalScheduler;
use crate::history::{
    calls_ordered, lemma_end_alone, lemma_ordered_after, lemma_started_after, started_after,
    HookCall,
};
use crate::requirement::SubsystemSUID;
use crate::state::{CommandIndex, SchedulerState, Slot};
use crate::transitions::Visit;

verus! {

impl Visit {
    /// The calls of a visit keep to the lifecycle, and they leave the
    /// command started exactly if the visit does not end it.
    pub proof fn lemma_calls(slot: Slot, finished: bool)
        ensures
            calls_ordered(slot.initialized, Self::planned(slot).calls(finished)),
            started_after(slot.initialized, Self::planned(slot).calls(finished))
                == !Self::planned(slot).ends(finished),
            Self::planned(slot).ends(finished) ==> Self::planned(slot).calls(finished).last() is End,
            Self::planned(slot).calls(finished).len() > 0,
    {
        let was = slot.initialized;
        let plan = Self::planned(slot);
        let calls = plan.calls(finished);
        match plan {
            Visit::Interrupt => {
                lemma_end_alone(was);
            },
            Visit::Start => {
                let one = seq![HookCall::Init];
                let two = seq![HookCall::Init, HookCall::Periodic];
                let three = seq![HookCall::Init, HookCall::Periodic, HookCall::IsFinished(finished)];
                assert(one.drop_last() =~= Seq::<HookCall>::empty());
                assert(calls_ordered(was, one.drop_last()));
                assert(started_after(was, one.drop_last()) == was);
                assert(calls_ordered(was, one));
                assert(started_after(was, one));
                assert(two.drop_last() =~= one);
                assert(calls_ordered(was, two));
                assert(started_after(was, two));
                assert(three.drop_last() =~= two);
                assert(calls_ordered(was, three));
                assert(started_after(was, three));
                if finished {
                    assert(calls.drop_last() =~= three);
                } else {
                    assert(calls =~= three);
                }
            },
            Visit::Continue => {
                let one = seq![HookCall::Periodic];
                let two = seq![HookCall::Periodic, HookCall::IsFinished(finished)];
                assert(one.drop_last() =~= Seq::<HookCall>::empty());
                assert(calls_ordered(was, one.drop_last()));
                assert(started_after(was, one.drop_last()) == was);
                assert(calls_ordered(was, one));
                assert(started_after(was, one));
                assert(two.drop_last() =~= one);
                assert(calls_ordered(was, two));
                assert(started_after(was, two));
                if finished {
                    assert(calls.drop_last() =~= two);
                } else {
                    assert(calls =~= two);
                }
            },
        }
    }
}

impl SchedulerState {
    /// The handle of the next command is the first free place.
    pub proof fn lemma_next_handle(self, position: usize)
        requires
            self.first_free(position),
        ensures
            self.next_handle() == CommandIndex::Command(position),
    {
        let chosen = choose|p: usize| self.first_free(p);
        if chosen < position {
            assert(self.holds(CommandIndex::Command(chosen)));
        } else if position < chosen {
            assert(self.holds(CommandIndex::Command(position)));
        }
    }

    /// The preserved arena has one length.
    pub proof fn lemma_next_preserved(self, position: usize)
        requires
            self.preserved_end(position),
        ensures
            self.next_preserved() == CommandIndex::PreservedCommand(position),
    {
        let chosen = choose|p: usize| self.preserved_end(p);
        if chosen < position {
            assert(self.in_range(CommandIndex::PreservedCommand(chosen)));
        } else if position < chosen {
            assert(self.in_range(CommandIndex::PreservedCommand(position)));
        }
    }

    /// Calls on the command under `index`, after which `slot` is noted in
    /// its place, keep the invariant if the new place is consistent, still
    /// justifies the claims made on it, and notes the command as initialised
    /// exactly if the calls leave it started.
    pub proof fn lemma_logged_wf(
        self,
        index: CommandIndex,
        calls: Seq<HookCall>,
        slot: Slot,
    )
        requires
            self.wf(),
            self.in_range(index),
            self.with_slot(index, slot).slot_consistent(index),
            self.owns_some(index) ==> {
                &&& slot.interrupt is Some
                &&& slot.interrupt == Some(false) ==> self.slot(index).interrupt == Some(false)
                &&& self.slot(index).command is Some ==> {
                    &&& slot.command is Some
                    &&& slot.command->0.requirement_set() == self.needs(index)
                }
            },
            slot.initialized == started_after(self.slot(index).initialized, calls),
            calls_ordered(self.slot(index).initialized, calls),
        ensures
            self.logged(index, calls).with_slot(index, slot).wf(),
    {
        let after = self.logged(index, calls).with_slot(index, slot);
        assert(self.history_agrees(index));
        lemma_ordered_after(self.history, index, calls);
        assert forall|other: CommandIndex| #[trigger] after.history_agrees(other) by {
            assert(self.history_agrees(other));
            lemma_started_after(self.history, index, calls, other);
        }
        assert forall|other: CommandIndex| after.in_range(other) implies #[trigger]
            after.claims_honoured(other) by {
            assert(self.in_range(other));
            assert(self.claims_honoured(other));
            assert(after.owners == self.owners);
            assert(after.owns_some(other) == self.owns_some(other));
            if other == index {
                if after.owns_some(other) && !other.is_default() {
                    let suid = choose|suid: SubsystemSUID| self.owners.contains_pair(suid, index);
                    assert(self.owner_consistent(suid));
                    assert(after.needs(other) == self.needs(other));
                }
            } else {
                assert(after.slot(other) == self.slot(other));
                assert(after.needs(other) == self.needs(other));
            }
        }
        assert forall|i: usize| #[trigger]
            after.in_range(CommandIndex::DefaultCommand(i)) <==> i < after.registered.len() by {
            assert(self.in_range(CommandIndex::DefaultCommand(i)) <==> i < self.registered.len());
        }
        assert forall|other: CommandIndex| after.in_range(other) implies #[trigger]
            after.slot_consistent(other) by {
            if other != index {
                assert(self.slot_consistent(other));
            } else {
                assert(self.with_slot(index, slot).slot(index) == after.slot(index));
            }
        }
        assert forall|suid: SubsystemSUID| after.owners.contains_key(suid) implies #[trigger]
            after.owner_consistent(suid) by {
            assert(self.owner_consistent(suid));
            if self.owners[suid] == index {
                assert(self.owners.contains_pair(suid, index));
            }
        }
    }

    /// Replacing a place keeps the invariant if the new place is consistent,
    /// still justifies the claims made on it, and notes the command as
    /// initialised exactly if the old one did.
    pub proof fn lemma_with_slot_wf(self, index: CommandIndex, slot: Slot)
        requires
            self.wf(),
            self.in_range(index),
            self.with_slot(index, slot).slot_consistent(index),
            self.owns_some(index) ==> {
                &&& slot.interrupt is Some
                &&& slot.interrupt == Some(false) ==> self.slot(index).interrupt == Some(false)
                &&& self.slot(index).command is Some ==> {
                    &&& slot.command is Some
                    &&& slot.command->0.requirement_set() == self.needs(index)
                }
            },
            slot.initialized == self.slot(index).initialized,
        ensures
            self.with_slot(index, slot).wf(),
    {
        self.lemma_logged_wf(index, Seq::empty(), slot);
        assert(self.logged(index, Seq::empty()).history =~= self.history);
        assert(self.logged(index, Seq::empty()) == self);
    }

    /// A hook that leaves what a command declares as it was, and leaves an
    /// initialised command ready, keeps the invariant.
    pub proof fn lemma_with_command_wf(self, index: CommandIndex, command: Command)
        requires
            self.wf(),
            self.holds(index),
            command.same_declaration(&self.command_at(index)),
            self.slot(index).initialized ==> command.ready(),
        ensures
            self.with_command(index, command).wf(),
    {
        assert(self.slot_consistent(index));
        if self.owns_some(index) {
            let suid = choose|suid: SubsystemSUID| self.owners.contains_pair(suid, index);
            assert(self.owner_consistent(suid));
        }
        self.lemma_with_slot_wf(index, self.slot(index).holding(command));
    }

    /// Adding a command keeps the invariant.
    pub proof fn lemma_added_wf(self, command: Command)
        requires
            self.wf(),
            exists|position: usize| self.first_free(position),
        ensures
            self.added(command).wf(),
            !self.holds(self.next_handle()),
            self.added(command).holds(self.next_handle()),
    {
        let position = choose|position: usize| self.first_free(position);
        let index = CommandIndex::Command(position);
        let after = self.added(command);
        assert forall|other: CommandIndex| #[trigger] after.history_agrees(other) by {
            assert(self.history_agrees(other));
            if other == index && self.in_range(index) {
                assert(self.slot_consistent(index));
            }
        }
        assert forall|other: CommandIndex| after.in_range(other) implies #[trigger]
            after.claims_honoured(other) by {
            assert(after.owners == self.owners);
            assert(after.owns_some(other) == self.owns_some(other));
            if other != index {
                assert(self.in_range(other));
                assert(self.claims_honoured(other));
                assert(after.slot(other) == self.slot(other));
                assert(after.needs(other) == self.needs(other));
            } else if after.owns_some(other) {
                let suid = choose|suid: SubsystemSUID| self.owners.contains_pair(suid, index);
                assert(self.owner_consistent(suid));
            }
        }
        assert forall|i: usize| #[trigger]
            after.in_range(CommandIndex::DefaultCommand(i)) <==> i < after.registered.len() by {
            assert(self.in_range(CommandIndex::DefaultCommand(i)) <==> i < self.registered.len());
        }
        assert forall|other: CommandIndex| after.in_range(other) implies #[trigger]
            after.slot_consistent(other) by {
            if other != index {
                assert(self.slot_consistent(other));
            }
        }
        assert forall|suid: SubsystemSUID| after.owners.contains_key(suid) implies #[trigger]
            after.owner_consistent(suid) by {
            assert(self.owner_consistent(suid));
            if self.owners[suid] == index {
                assert(self.slot_consistent(index));
            }
        }
    }

    /// Ending a command keeps the invariant.
    pub proof fn lemma_reaped_wf(self, index: CommandIndex)
        requires
            self.wf(),
            self.in_range(index),
            !self.slot(index).initialized,
        ensures
            self.reaped(index).wf(),
    {
        let after = self.reaped(index);
        assert forall|other: CommandIndex| #[trigger] after.history_agrees(other) by {
            assert(self.history_agrees(other));
        }
        assert(self.slot_consistent(index));
        assert forall|other: CommandIndex| after.in_range(other) implies #[trigger]
            after.claims_honoured(other) by {
            if other != index {
                assert(self.in_range(other));
                assert(self.claims_honoured(other));
                assert(after.slot(other) == self.slot(other));
                assert(after.needs(other) == self.needs(other));
                if after.owns_some(other) {
                    let held = choose|suid: SubsystemSUID| after.owners.contains_pair(suid, other);
                    assert(self.owners.contains_pair(held, other));
                    assert(self.owns_some(other));
                    if !other.is_default() && after.slot(other).interrupt == Some(false) {
                        assert forall|suid: SubsystemSUID| #[trigger]
                            after.needs(other).contains(suid) implies after.owners.contains_pair(
                            suid,
                            other,
                        ) by {
                            assert(self.needs(other).contains(suid));
                            assert(self.owners.contains_pair(suid, other));
                        }
                    }
                }
            }
        }
        assert forall|i: usize| #[trigger]
            after.in_range(CommandIndex::DefaultCommand(i)) <==> i < after.registered.len() by {
            assert(self.in_range(CommandIndex::DefaultCommand(i)) <==> i < self.registered.len());
        }
        assert forall|other: CommandIndex| after.in_range(other) implies #[trigger]
            after.slot_consistent(other) by {
            if other != index {
                assert(self.slot_consistent(other));
            }
        }
        assert forall|suid: SubsystemSUID| after.owners.contains_key(suid) implies #[trigger]
            after.owner_consistent(suid) by {
            assert(self.owner_consistent(suid));
        }
    }

    /// Admitting a command that is not refused keeps the invariant.
    pub proof fn lemma_admitted_wf(self, index: CommandIndex)
        requires
            self.wf(),
            self.holds(index),
            !index.is_default(),
            !self.refuses_admission(index),
        ensures
            self.admitted(index).wf(),
    {
        let after = self.admitted(index);
        let needs = self.needs(index);
        assert(self.slot_consistent(index));
        assert forall|other: CommandIndex| #[trigger] after.history_agrees(other) by {
            assert(self.history_agrees(other));
        }
        if needs != Set::<SubsystemSUID>::empty() {
            assert forall|other: CommandIndex| after.in_range(other) implies #[trigger]
                after.claims_honoured(other) by {
                assert(self.in_range(other));
                assert(self.claims_honoured(other));
                assert(after.needs(other) == self.needs(other));
                if other == index {
                    assert forall|suid: SubsystemSUID| #[trigger]
                        after.needs(other).contains(suid) implies after.owners.contains_pair(
                        suid,
                        other,
                    ) by {
                        assert(needs.contains(suid));
                    }
                } else if !other.is_default() && after.slot(other).interrupt == Some(false)
                    && after.owns_some(other) {
                    let held = choose|suid: SubsystemSUID| after.owners.contains_pair(suid, other);
                    assert(!needs.contains(held));
                    assert(self.owners.contains_pair(held, other));
                    assert(self.owns_some(other));
                    assert(!self.incumbent(needs, other));
                    assert(self.slot(other).interrupt == Some(false));
                    assert forall|suid: SubsystemSUID| #[trigger]
                        after.needs(other).contains(suid) implies after.owners.contains_pair(
                        suid,
                        other,
                    ) by {
                        assert(self.needs(other).contains(suid));
                        assert(self.owners.contains_pair(suid, other));
                        if needs.contains(suid) {
                            assert(self.incumbent(needs, other));
                        }
                    }
                }
            }
        }
        if needs == Set::<SubsystemSUID>::empty() {
            assert(self.owns_some(index) ==> false) by {
                if self.owns_some(index) {
                    let suid = choose|suid: SubsystemSUID| self.owners.contains_pair(suid, index);
                    assert(self.owner_consistent(suid));
                }
            }
            self.lemma_with_slot_wf(
                index,
                Slot { interrupt: Some(false), orphaned: true, ..self.slot(index) },
            );
        } else {
            assert forall|i: usize| #[trigger]
                after.in_range(CommandIndex::DefaultCommand(i)) <==> i
                    < after.registered.len() by {
                assert(self.in_range(CommandIndex::DefaultCommand(i)) <==> i
                    < self.registered.len());
            }
            assert forall|other: CommandIndex| after.in_range(other) implies #[trigger]
                after.slot_consistent(other) by {
                assert(self.slot_consistent(other));
                if other != index && self.incumbent(needs, other) && !other.is_default() {
                    let suid = choose|suid: SubsystemSUID|
                        needs.contains(suid) && self.owners.contains_pair(suid, other);
                    assert(self.owner_consistent(suid));
                }
            }
            assert forall|suid: SubsystemSUID| after.owners.contains_key(suid) implies #[trigger]
                after.owner_consistent(suid) by {
                if !needs.contains(suid) {
                    assert(self.owner_consistent(suid));
                }
            }
        }
    }

    /// Running the hooks of the subsystems keeps the invariant.
    pub proof fn lemma_subsystems_run_wf(self, periods: Seq<Duration>)
        requires
            self.wf(),
        ensures
            self.subsystems_run(periods).wf(),
    {
        let after = self.subsystems_run(periods);
        assert forall|other: CommandIndex| #[trigger] after.history_agrees(other) by {
            assert(self.history_agrees(other));
        }
        assert forall|i: usize| #[trigger]
            after.in_range(CommandIndex::DefaultCommand(i)) <==> i < after.registered.len() by {
            assert(self.in_range(CommandIndex::DefaultCommand(i)) <==> i < self.registered.len());
        }
        assert forall|index: CommandIndex| after.in_range(index) implies #[trigger]
            after.slot_consistent(index) by {
            assert(self.slot_consistent(index));
        }
        assert forall|suid: SubsystemSUID| after.owners.contains_key(suid) implies #[trigger]
            after.owner_consistent(suid) by {
            assert(self.owner_consistent(suid));
        }
        assert forall|index: CommandIndex| after.in_range(index) implies #[trigger]
            after.claims_honoured(index) by {
            assert(self.in_range(index));
            assert(self.claims_honoured(index));
            assert(after.owners == self.owners);
            assert(after.owns_some(index) == self.owns_some(index));
            assert(after.needs(index) == self.needs(index));
        }
    }

    /// Giving the unowned subsystems to their defaults keeps the invariant.
    pub proof fn lemma_defaults_restored_wf(self)
        requires
            self.wf(),
        ensures
            self.defaults_restored().wf(),
    {
        let after = self.defaults_restored();
        assert forall|other: CommandIndex| #[trigger] after.history_agrees(other) by {
            assert(self.history_agrees(other));
        }
        assert forall|other: CommandIndex| after.in_range(other) implies #[trigger]
            after.claims_honoured(other) by {
            assert(self.in_range(other));
            assert(self.claims_honoured(other));
            assert(self.slot_consistent(other));
            if !other.is_default() {
                if after.slot(other) != self.slot(other) {
                    let suid = choose|suid: SubsystemSUID|
                        self.defaults.contains_pair(suid, other) && !self.owners.contains_key(suid);
                    assert(self.defaults.contains_key(suid));
                }
                assert(after.slot(other) == self.slot(other));
                assert(after.needs(other) == self.needs(other));
                if after.owns_some(other) {
                    let held = choose|suid: SubsystemSUID| after.owners.contains_pair(suid, other);
                    if !self.owners.contains_key(held) {
                        assert(self.defaults.contains_key(held));
                        assert(after.owners[held] == self.defaults[held]);
                    }
                    assert(self.owners.contains_pair(held, other));
                    assert(self.owns_some(other));
                    if after.slot(other).interrupt == Some(false) {
                        assert forall|suid: SubsystemSUID| #[trigger]
                            after.needs(other).contains(suid) implies after.owners.contains_pair(
                            suid,
                            other,
                        ) by {
                            assert(self.needs(other).contains(suid));
                            assert(self.owners.contains_pair(suid, other));
                        }
                    }
                }
            }
        }
        assert forall|i: usize| #[trigger]
            after.in_range(CommandIndex::DefaultCommand(i)) <==> i < after.registered.len() by {
            assert(self.in_range(CommandIndex::DefaultCommand(i)) <==> i < self.registered.len());
        }
        assert forall|other: CommandIndex| after.in_range(other) implies #[trigger]
            after.slot_consistent(other) by {
            assert(self.slot_consistent(other));
            if after.slot(other) != self.slot(other) {
                let suid = choose|suid: SubsystemSUID|
                    self.defaults.contains_pair(suid, other) && !self.owners.contains_key(suid);
                assert(self.defaults.contains_key(suid));
            }
        }
        assert forall|suid: SubsystemSUID| after.owners.contains_key(suid) implies #[trigger]
            after.owner_consistent(suid) by {
            if self.owners.contains_key(suid) {
                assert(self.owner_consistent(suid));
            } else {
                assert(self.defaults.contains_key(suid));
                assert(self.defaults.contains_pair(suid, self.defaults[suid]));
            }
        }
    }

    /// Registering a subsystem that is not registered yet keeps the
    /// invariant.
    pub proof fn lemma_registered_wf(self, suid: SubsystemSUID, default_command: Option<Command>)
        requires
            self.wf(),
            !self.defaults.contains_key(suid),
            self.registered.len() < usize::MAX,
        ensures
            self.registered_with(suid, default_command).wf(),
    {
        let after = self.registered_with(suid, default_command);
        let index = CommandIndex::DefaultCommand(self.registered.len() as usize);
        assert(!self.in_range(index));
        assert forall|other: CommandIndex| #[trigger] after.history_agrees(other) by {
            assert(self.history_agrees(other));
        }
        assert forall|other: CommandIndex| after.in_range(other) implies #[trigger]
            after.claims_honoured(other) by {
            assert(after.owners == self.owners);
            assert(after.owns_some(other) == self.owns_some(other));
            if other != index {
                assert(self.in_range(other));
                assert(self.claims_honoured(other));
                assert(after.slot(other) == self.slot(other));
                assert(after.needs(other) == self.needs(other));
            }
        }
        assert forall|i: usize| #[trigger]
            after.in_range(CommandIndex::DefaultCommand(i)) <==> i < after.registered.len() by {
            assert(self.in_range(CommandIndex::DefaultCommand(i)) <==> i < self.registered.len());
        }
        assert forall|i: int| 0 <= i < after.registered.len() implies after.defaults.contains_pair(
            #[trigger] after.registered[i],
            CommandIndex::DefaultCommand(i as usize),
        ) by {
            if i < self.registered.len() {
                assert(self.defaults.contains_pair(
                    self.registered[i],
                    CommandIndex::DefaultCommand(i as usize),
                ));
            }
        }
        assert forall|other: SubsystemSUID| #[trigger]
            after.defaults.contains_key(other) implies {
            &&& after.defaults[other] is DefaultCommand
            &&& after.in_range(after.defaults[other])
            &&& after.registered[after.defaults[other]->DefaultCommand_0 as int] == other
        } by {
            if other != suid {
                assert(self.defaults.contains_key(other));
            }
        }
        assert forall|other: CommandIndex| after.in_range(other) implies #[trigger]
            after.slot_consistent(other) by {
            if other != index {
                assert(self.slot_consistent(other));
            }
        }
        assert forall|other: SubsystemSUID| after.owners.contains_key(other) implies #[trigger]
            after.owner_consistent(other) by {
            assert(self.owner_consistent(other));
        }
    }

    /// Registering a conditional scheduler that holds its command keeps the
    /// invariant.
    pub proof fn lemma_with_condition_wf(self, scheduler: ConditionalScheduler)
        requires
            self.wf(),
            scheduler.held_command() is Some,
            exists|position: usize| self.preserved_end(position),
        ensures
            self.with_condition(scheduler).wf(),
    {
        let after = self.with_condition(scheduler);
        let position = choose|position: usize| self.preserved_end(position);
        let index = CommandIndex::PreservedCommand(position);
        assert(!self.in_range(index));
        scheduler.lemma_registered_as(index);
        assert forall|other: CommandIndex| #[trigger] after.history_agrees(other) by {
            assert(self.history_agrees(other));
        }
        assert forall|other: CommandIndex| after.in_range(other) implies #[trigger]
            after.claims_honoured(other) by {
            assert(after.owners == self.owners);
            assert(after.owns_some(other) == self.owns_some(other));
            if other != index {
                assert(self.in_range(other));
                assert(self.claims_honoured(other));
                assert(after.slot(other) == self.slot(other));
                assert(after.needs(other) == self.needs(other));
            } else if after.owns_some(other) {
                let suid = choose|suid: SubsystemSUID| self.owners.contains_pair(suid, index);
                assert(self.owner_consistent(suid));
            }
        }
        assert forall|i: usize| #[trigger]
            after.in_range(CommandIndex::DefaultCommand(i)) <==> i < after.registered.len() by {
            assert(self.in_range(CommandIndex::DefaultCommand(i)) <==> i < self.registered.len());
        }
        assert forall|other: CommandIndex| after.in_range(other) implies #[trigger]
            after.slot_consistent(other) by {
            if other != index {
                assert(self.slot_consistent(other));
            }
        }
        assert forall|suid: SubsystemSUID| after.owners.contains_key(suid) implies #[trigger]
            after.owner_consistent(suid) by {
            assert(self.owner_consistent(suid));
        }
        assert forall|k: int| 0 <= k < after.conditions.len() implies {
            &&& (#[trigger] after.conditions[k]).held_command() is None
            &&& after.conditions[k].handle() matches Some(handle)
            &&& handle is PreservedCommand
            &&& after.in_range(handle)
        } by {
            if k < self.conditions.len() {
                assert(self.conditions[k].held_command() is None);
            }
        }
    }

    /// Calls that finish with `end`, after which the command is no longer
    /// tracked, keep the invariant.
    pub proof fn lemma_ended_wf(self, index: CommandIndex, calls: Seq<HookCall>, left: Command)
        requires
            self.wf(),
            self.holds(index),
            left.same_declaration(&self.command_at(index)),
            calls.len() > 0,
            calls.last() is End,
            calls_ordered(self.slot(index).initialized, calls),
        ensures
            self.logged(index, calls).with_command(index, left).reaped(index).wf(),
    {
        let stopped = Slot { initialized: false, ..self.slot(index).holding(left) };
        assert(self.slot_consistent(index));
        if self.owns_some(index) {
            let suid = choose|suid: SubsystemSUID| self.owners.contains_pair(suid, index);
            assert(self.owner_consistent(suid));
        }
        self.lemma_logged_wf(index, calls, stopped);
        let halted = self.logged(index, calls).with_slot(index, stopped);
        halted.lemma_reaped_wf(index);
        let target = self.logged(index, calls).with_command(index, left).reaped(index);
        assert(halted.reaped(index).slots =~= target.slots);
        assert(halted.reaped(index).owners =~= target.owners);
    }

    /// A visit keeps the invariant.
    pub proof fn lemma_visited_wf(self, index: CommandIndex, left: Command, finished: bool)
        requires
            self.wf(),
            self.visit_fits(index, left, finished),
        ensures
            self.visited(index, left, finished).wf(),
    {
        if self.watched(index) {
            let plan = Visit::planned(self.slot(index));
            let calls = plan.calls(finished);
            assert(self.slot_consistent(index));
            Visit::lemma_calls(self.slot(index), finished);
            if plan.ends(finished) {
                self.lemma_ended_wf(index, calls, left);
            } else {
                let running = Slot { initialized: true, ..self.slot(index).holding(left) };
                if self.owns_some(index) {
                    let suid = choose|suid: SubsystemSUID| self.owners.contains_pair(suid, index);
                    assert(self.owner_consistent(suid));
                }
                self.lemma_logged_wf(index, calls, running);
            }
        }
    }

    /// Retiring a command keeps the invariant.
    pub proof fn lemma_retired_wf(self, index: CommandIndex, left: Command)
        requires
            self.wf(),
            self.holds(index),
            left.same_declaration(&self.command_at(index)),
        ensures
            self.retired(index, left).wf(),
    {
        lemma_end_alone(self.slot(index).initialized);
        self.lemma_ended_wf(index, seq![HookCall::End(true)], left);
    }

    /// Nothing is left of an ordinary command that has been retired: how the
    /// hook left it does not matter.
    pub proof fn lemma_retired_command(self, index: CommandIndex, left: Command)
        requires
            index is Command,
            self.in_range(index),
        ensures
            self.retired(index, left) == self.logged(index, seq![HookCall::End(true)]).reaped(
                index,
            ),
    {
        let gone = self.logged(index, seq![HookCall::End(true)]).reaped(index);
        assert(self.retired(index, left).slots =~= gone.slots);
        assert(self.retired(index, left).owners =~= gone.owners);
    }

    /// Polling keeps the invariant.
    pub proof fn lemma_polled_wf(self, samples: Seq<bool>)
        requires
            self.wf(),
        ensures
            self.polled(samples).wf(),
    {
        let after = self.polled(samples);
        assert forall|other: CommandIndex| #[trigger] after.history_agrees(other) by {
            assert(self.history_agrees(other));
        }
        assert forall|i: usize| #[trigger]
            after.in_range(CommandIndex::DefaultCommand(i)) <==> i < after.registered.len() by {
            assert(self.in_range(CommandIndex::DefaultCommand(i)) <==> i < self.registered.len());
        }
        assert forall|index: CommandIndex| after.in_range(index) implies #[trigger]
            after.slot_consistent(index) by {
            assert(self.slot_consistent(index));
        }
        assert forall|suid: SubsystemSUID| after.owners.contains_key(suid) implies #[trigger]
            after.owner_consistent(suid) by {
            assert(self.owner_consistent(suid));
        }
        assert forall|index: CommandIndex| after.in_range(index) implies #[trigger]
            after.claims_honoured(index) by {
            assert(self.in_range(index));
            assert(self.claims_honoured(index));
            assert(after.owners == self.owners);
            assert(after.owns_some(index) == self.owns_some(index));
            assert(after.needs(index) == self.needs(index));
        }
        assert forall|k: int| 0 <= k < after.conditions.len() implies {
            &&& (#[trigger] after.conditions[k]).held_command() is None
            &&& after.conditions[k].handle() matches Some(handle)
            &&& handle is PreservedCommand
            &&& after.in_range(handle)
        } by {
            self.conditions[k].lemma_after_sample(samples[k]);
            assert(self.conditions[k].held_command() is None);
        }
    }

    /// The handles fired by the first `count` schedulers depend on the first
    /// `count` samples only.
    pub proof fn lemma_fired_prefix(self, short: Seq<bool>, long: Seq<bool>, count: nat)
        requires
            count <= short.len(),
            short.len() <= long.len(),
            forall|j: int| 0 <= j < short.len() ==> short[j] == long[j],
        ensures
            self.fired(short, count) == self.fired(long, count),
        decreases count,
    {
        if count > 0 {
            self.lemma_fired_prefix(short, long, (count - 1) as nat);
        }
    }

    /// Every handle that a poll fires names a preserved place.
    pub proof fn lemma_fired_valid(self, samples: Seq<bool>, count: nat)
        requires
            self.wf(),
            count <= self.conditions.len(),
        ensures
            forall|j: int|
                0 <= j < self.fired(samples, count).len() ==> (#[trigger] self.fired(
                    samples,
                    count,
                )[j]) is PreservedCommand && self.in_range(self.fired(samples, count)[j]),
        decreases count,
    {
        if count > 0 {
            self.lemma_fired_valid(samples, (count - 1) as nat);
            assert(self.conditions[count - 1].held_command() is None);
        }
    }

    /// Admission looks at places and owners only: two states that differ in
    /// their conditional schedulers alone admit alike.
    pub proof fn lemma_lefts_fit_any(
        self,
        other: SchedulerState,
        handles: Seq<CommandIndex>,
        lefts: Seq<Command>,
    )
        requires
            other.lefts_fit(handles, lefts),
            other.slots == self.slots,
            other.owners == self.owners,
        ensures
            self.lefts_fit(handles, lefts),
            self.admitted_all(handles, lefts).slots == other.admitted_all(handles, lefts).slots,
            self.admitted_all(handles, lefts).owners == other.admitted_all(handles, lefts).owners,
        decreases handles.len(),
    {
        if handles.len() > 0 {
            self.lemma_lefts_fit_any(other, handles.drop_last(), lefts.drop_last());
            let mine = self.admitted_all(handles.drop_last(), lefts.drop_last());
            let theirs = other.admitted_all(handles.drop_last(), lefts.drop_last());
            let index = handles.last();
            let left = lefts.last();
            assert(mine.needs(index) == theirs.needs(index));
            assert(mine.refuses(mine.needs(index), index) == theirs.refuses(
                theirs.needs(index),
                index,
            )) by {
                assert forall|owner: CommandIndex|
                    mine.incumbent(mine.needs(index), owner) == theirs.incumbent(
                        theirs.needs(index),
                        owner,
                    ) by {
                }
            }
            assert(mine.command_at(index) == theirs.command_at(index));
            assert(mine.left_fits(index, left));
            assert(mine.admitted_or_retired(index, left).slots =~= theirs.admitted_or_retired(
                index,
                left,
            ).slots);
            assert(mine.admitted_or_retired(index, left).owners =~= theirs.admitted_or_retired(
                index,
                left,
            ).owners);
        }
    }

    /// Whether the hooks can have left `lefts` does not depend on the
    /// samples that the schedulers have seen.
    pub proof fn lemma_lefts_fit_polled(
        self,
        samples: Seq<bool>,
        handles: Seq<CommandIndex>,
        lefts: Seq<Command>,
    )
        requires
            self.polled(samples).lefts_fit(handles, lefts),
            handles == self.fired(samples, self.conditions.len()),
        ensures
            self.lefts_fit(self.fired(samples, self.conditions.len()), lefts),
    {
        self.lemma_lefts_fit_any(self.polled(samples), handles, lefts);
    }

    /// Visits keep the invariant.
    pub proof fn lemma_visited_all_wf(
        self,
        order: Seq<CommandIndex>,
        lefts: Seq<Command>,
        answers: Seq<bool>,
    )
        requires
            self.wf(),
            self.visits_fit(order, lefts, answers),
        ensures
            self.visited_all(order, lefts, answers).wf(),
        decreases order.len(),
    {
        if order.len() > 0 {
            self.lemma_visited_all_wf(order.drop_last(), lefts.drop_last(), answers.drop_last());
            self.visited_all(
                order.drop_last(),
                lefts.drop_last(),
                answers.drop_last(),
            ).lemma_visited_wf(order.last(), lefts.last(), answers.last());
        }
    }
}

} // verus!
