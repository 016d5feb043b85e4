//! The phases of a tick.
//!
//! 1. Everything that waits in the queues is taken in.
//! 2. The periodic hook of every subsystem runs, and every subsystem
//!    without an owner goes to its default command.
//! 3. The conditional schedulers are polled, and what they fire goes
//!    through admission.
//! 4. Every active command is visited once; those that end are no longer
//!    tracked.

use std::time::Duration;
use vstd::prelude::*;

use crate::commands::Command;
use crate::context::SchedulerContext;
use crate::leaves::LifecycleCall;
use crate::manager::CommandManager;
use crate::requirement::SubsystemSUID;
use crate::state::{CommandIndex, SchedulerState, Slot};
use crate::time::duration_from_secs;
use crate::transitions::Visit;

verus! {

/// Adds `index` to `list` unless it is there already.
fn push_unique(list: &mut Vec<CommandIndex>, index: CommandIndex)
    requires
        old(list)@.no_duplicates(),
    ensures
        final(list)@.no_duplicates(),
        forall|other: CommandIndex|
            final(list)@.contains(other) <==> old(list)@.contains(other) || other == index,
{
    let mut i: usize = 0;
    while i < list.len()
        invariant
            i <= list@.len(),
            list@ == old(list)@,
            list@.no_duplicates(),
            forall|j: int| 0 <= j < i ==> list@[j] != index,
        decreases list@.len() - i,
    {
        if list[i] == index {
            proof {
                assert(list@.contains(index));
            }
            return ;
        }
        i += 1;
    }
    list.push(index);
    proof {
        assert forall|other: CommandIndex| list@.contains(other) <==> old(list)@.contains(other)
            || other == index by {
            if old(list)@.contains(other) {
                let j = choose|j: int| 0 <= j < old(list)@.len() && old(list)@[j] == other;
                assert(list@[j] == other);
            }
            assert(list@[list@.len() - 1] == index);
        }
    }
}

/// Runs one cycle of a command that is ready: `periodic`, then
/// `is_finished`, then, if it is finished, `end` as not interrupted.
fn run_cycle(command: &mut Command, period: Duration) -> (finished: bool)
    requires
        old(command).ready(),
    ensures
        final(command).same_declaration(old(command)),
        !finished ==> final(command).ready(),
        final(command).cycled(old(command), period, finished),
{
    command.periodic(period);
    let ghost ran = *command;
    let finished = command.is_finished();
    let ghost asked = *command;
    if finished {
        command.end(false);
    }
    proof {
        assert(asked.same_declaration(&ran));
        assert(command.cycled_through(old(command), &ran, &asked, period, finished));
    }
    finished
}

impl CommandManager {
    /// The first phase of a tick: everything that waits in the queues of
    /// `context` is taken in. Each command is scheduled, oldest first; then
    /// each conditional scheduler is registered, oldest first.
    pub(crate) fn update(&mut self, context: &mut SchedulerContext)
        requires
            old(self).wf(),
            old(context).conditions_hold_commands(),
        ensures
            final(self).wf(),
            final(self)@ == old(self)@.taken_in(old(context).pending_commands()).with_conditions(
                old(context).pending_conditions(),
            ),
            final(context).is_bound() == old(context).is_bound(),
            final(context).pending_commands().len() == 0,
            final(context).pending_conditions().len() == 0,
    {
        let (commands, conditions) = context.drain();
        let ghost pending = commands@;
        let ghost waiting = conditions@;
        for command in queued: commands
            invariant
                self.wf(),
                queued.seq() == pending,
                self@ == old(self)@.taken_in(pending.take(queued.index() as int)),
        {
            proof {
                let next = pending.take(queued.index() + 1);
                assert(next.drop_last() =~= pending.take(queued.index() as int));
                assert(next.last() == command);
            }
            self.schedule(command);
        }
        proof {
            assert(pending.take(pending.len() as int) =~= pending);
        }
        let ghost taken = self@;
        for scheduler in queued: conditions
            invariant
                self.wf(),
                queued.seq() == waiting,
                self@ == taken.with_conditions(waiting.take(queued.index() as int)),
                forall|k: int|
                    0 <= k < waiting.len() ==> (#[trigger] waiting[k]).held_command() is Some,
        {
            proof {
                let next = waiting.take(queued.index() + 1);
                assert(next.drop_last() =~= waiting.take(queued.index() as int));
                assert(next.last() == scheduler);
            }
            self.add_cond_scheduler(scheduler);
        }
        proof {
            assert(waiting.take(waiting.len() as int) =~= waiting);
        }
    }

    /// Gives every subsystem that has no owner to its default command.
    fn restore_defaults(&mut self)
        requires
            old(self).wf(),
        ensures
            final(self).wf(),
            final(self)@ == old(self)@.defaults_restored(),
    {
        let ghost before = self@;
        let count = self.registered_count();
        let mut k: usize = 0;
        while k < count
            invariant
                k <= count,
                count == before.registered.len(),
                before == old(self)@,
                before.wf(),
                self@.defaults == before.defaults,
                self@.registered == before.registered,
                self@.conditions == before.conditions,
                self@.history == before.history,
                self@.hooks == before.hooks,
                self@.subsystem_runs == before.subsystem_runs,
                self@.slots.dom() == before.slots.dom(),
                forall|suid: SubsystemSUID|
                    #![trigger self@.owners.contains_key(suid)]
                    self@.owners.contains_key(suid) <==> before.owners.contains_key(suid) || (
                    exists|j: int| 0 <= j < k && #[trigger] before.registered[j] == suid),
                forall|suid: SubsystemSUID|
                    self@.owners.contains_key(suid) ==> #[trigger] self@.owners[suid]
                        == if before.owners.contains_key(suid) {
                        before.owners[suid]
                    } else {
                        before.defaults[suid]
                    },
                forall|index: CommandIndex|
                    before.in_range(index) ==> #[trigger] self@.slot(index) == if index
                        matches CommandIndex::DefaultCommand(j) && j < k && before.slot(
                        index,
                    ).interrupt is None && !before.owners.contains_key(before.registered[j as int]) {
                        before.slot(index).marked(false)
                    } else {
                        before.slot(index)
                    },
            decreases count - k,
        {
            let suid = self.registered_suid(k);
            let default = CommandIndex::DefaultCommand(k);
            let ghost prev = self@;
            proof {
                assert(before.defaults.contains_pair(before.registered[k as int], default));
                assert(before.in_range(default));
                assert forall|j: int| 0 <= j < k implies before.registered[j] != suid by {
                    assert(before.defaults.contains_pair(
                        before.registered[j],
                        CommandIndex::DefaultCommand(j as usize),
                    ));
                }
                assert(prev.owners.contains_key(suid) <==> before.owners.contains_key(suid));
                assert(prev.slot(default) == before.slot(default));
            }
            if self.owner(suid).is_none() {
                self.give(suid, default);
                if self.interrupt_flag(default).is_none() {
                    self.mark(default, false);
                }
            }
            proof {
                assert(self@.slots.dom() =~= before.slots.dom());
                assert forall|other: SubsystemSUID|
                    #![trigger self@.owners.contains_key(other)]
                    self@.owners.contains_key(other) <==> before.owners.contains_key(other) || (
                    exists|j: int| 0 <= j < k + 1 && #[trigger] before.registered[j] == other) by {
                    if exists|j: int| 0 <= j < k && #[trigger] before.registered[j] == other {
                        let j = choose|j: int| 0 <= j < k && #[trigger] before.registered[j] == other;
                        assert(0 <= j < k + 1 && before.registered[j] == other);
                    }
                    if other == suid {
                        assert(before.registered[k as int] == other);
                    }
                    if exists|j: int| 0 <= j < k + 1 && #[trigger] before.registered[j] == other {
                        let j = choose|j: int|
                            0 <= j < k + 1 && #[trigger] before.registered[j] == other;
                        if j < k {
                            assert(prev.owners.contains_key(other));
                        }
                    }
                }
                assert forall|index: CommandIndex| before.in_range(index) implies #[trigger]
                    self@.slot(index) == if index matches CommandIndex::DefaultCommand(j) && j < k
                    + 1 && before.slot(index).interrupt is None && !before.owners.contains_key(
                    before.registered[j as int],
                ) {
                    before.slot(index).marked(false)
                } else {
                    before.slot(index)
                } by {
                    assert(prev.slot(index) == if index matches CommandIndex::DefaultCommand(j)
                        && j < k && before.slot(index).interrupt is None
                        && !before.owners.contains_key(before.registered[j as int]) {
                        before.slot(index).marked(false)
                    } else {
                        before.slot(index)
                    });
                    if index != default {
                        assert(self@.slot(index) == prev.slot(index));
                    }
                }
            }
            k += 1;
        }
        proof {
            let target = before.defaults_restored();
            before.lemma_defaults_restored_wf();
            assert forall|suid: SubsystemSUID| self@.owners.contains_key(suid)
                <==> target.owners.contains_key(suid) by {
                if before.defaults.contains_key(suid) {
                    let j = before.defaults[suid]->DefaultCommand_0;
                    assert(before.in_range(before.defaults[suid]));
                    assert(before.registered[j as int] == suid);
                }
                if exists|j: int| 0 <= j < k && #[trigger] before.registered[j] == suid {
                    let j = choose|j: int| 0 <= j < k && #[trigger] before.registered[j] == suid;
                    assert(before.defaults.contains_pair(
                        before.registered[j],
                        CommandIndex::DefaultCommand(j as usize),
                    ));
                }
            }
            assert(self@.owners =~= target.owners);
            assert forall|index: CommandIndex| self@.slots.contains_key(index) implies #[trigger]
                self@.slots[index] == target.slots[index] by {
                assert(self@.slot(index) == if index matches CommandIndex::DefaultCommand(j) && j
                    < k && before.slot(index).interrupt is None && !before.owners.contains_key(
                    before.registered[j as int],
                ) {
                    before.slot(index).marked(false)
                } else {
                    before.slot(index)
                });
                let unowned = exists|suid: SubsystemSUID|
                    before.defaults.contains_pair(suid, index) && !before.owners.contains_key(suid);
                if unowned {
                    let suid = choose|suid: SubsystemSUID|
                        before.defaults.contains_pair(suid, index) && !before.owners.contains_key(
                            suid,
                        );
                    assert(before.defaults.contains_key(suid));
                }
                if index is DefaultCommand {
                    let j = index->DefaultCommand_0;
                    assert(before.defaults.contains_pair(before.registered[j as int], index));
                }
            }
            assert(self@.slots =~= target.slots);
        }
    }

    /// The second phase of a tick: the periodic hook of every registered
    /// subsystem runs, and every subsystem that has no owner is given to its
    /// default command.
    pub(crate) fn run_subsystems(&mut self) -> (periods: Ghost<Seq<Duration>>)
        requires
            old(self).wf(),
        ensures
            final(self).wf(),
            old(self)@.periods_fit(periods@),
            final(self)@ == old(self)@.subsystems_run(periods@).defaults_restored(),
    {
        let periods = self.run_subsystem_hooks();
        proof {
            old(self)@.lemma_subsystems_run_wf(periods@);
        }
        self.restore_defaults();
        periods
    }

    /// The third phase of a tick: every conditional scheduler is polled, in
    /// order of registration, and then every command whose edge has fired
    /// goes through admission, in the same order.
    pub(crate) fn run_cond_schedulers(&mut self)
        requires
            old(self).wf(),
        ensures
            final(self).wf(),
            old(self)@.conditions_run(final(self)@),
    {
        let ghost before = self@;
        let ghost mut samples: Seq<bool> = Seq::empty();
        let mut fired: Vec<CommandIndex> = Vec::new();
        let count = self.condition_count();
        let mut k: usize = 0;
        while k < count
            invariant
                k <= count,
                count == before.conditions.len(),
                self@.conditions.len() == count,
                before == old(self)@,
                before.wf(),
                self@.slots == before.slots,
                self@.owners == before.owners,
                self@.defaults == before.defaults,
                self@.registered == before.registered,
                self@.history == before.history,
                self@.hooks == before.hooks,
                self@.subsystem_runs == before.subsystem_runs,
                samples.len() == k,
                forall|j: int|
                    0 <= j < k ==> (#[trigger] before.conditions[j]).may_sample(samples[j]),
                forall|j: int|
                    0 <= j < k ==> #[trigger] self@.conditions[j] == before.conditions[j].after_sample(
                        samples[j],
                    ),
                forall|j: int| k <= j < count ==> self@.conditions[j] == before.conditions[j],
                fired@ == before.fired(samples, k as nat),
            decreases count - k,
        {
            let ghost prev = self@;
            let ghost seen = samples;
            let yielded = self.poll_condition(k);
            proof {
                assert(self@.slots =~= prev.slots);
                let sample = choose|sample: bool|
                    {
                        &&& prev.conditions[k as int].may_sample(sample)
                        &&& self@ == (SchedulerState {
                            conditions: prev.conditions.update(
                                k as int,
                                #[trigger] prev.conditions[k as int].after_sample(sample),
                            ),
                            ..prev
                        })
                        &&& yielded == prev.conditions[k as int].yields(sample)
                    };
                samples = seen.push(sample);
                assert forall|j: int| 0 <= j < k + 1 implies (#[trigger] before.conditions[j]).may_sample(
                    samples[j],
                ) by {
                    if j < k {
                        assert(samples[j] == seen[j]);
                    }
                }
                assert forall|j: int| 0 <= j < k + 1 implies #[trigger] self@.conditions[j]
                    == before.conditions[j].after_sample(samples[j]) by {
                    if j < k {
                        assert(self@.conditions[j] == prev.conditions[j]);
                    }
                }
                before.lemma_fired_prefix(seen, samples, k as nat);
            }
            match yielded {
                Some(index) => {
                    fired.push(index);
                },
                None => {},
            }
            k += 1;
        }
        let ghost polled = before.polled(samples);
        proof {
            assert(self@.conditions =~= polled.conditions);
            assert(self@ == polled);
            before.lemma_polled_wf(samples);
            before.lemma_fired_valid(samples, count as nat);
        }
        let ghost mut lefts: Seq<Command> = Seq::empty();
        let mut f: usize = 0;
        while f < fired.len()
            invariant
                f <= fired@.len(),
                self.wf(),
                polled.wf(),
                self@.slots.dom() == polled.slots.dom(),
                lefts.len() == f,
                polled.lefts_fit(fired@.take(f as int), lefts),
                self@ == polled.admitted_all(fired@.take(f as int), lefts),
                forall|j: int|
                    0 <= j < fired@.len() ==> (#[trigger] fired@[j]) is PreservedCommand
                        && polled.in_range(fired@[j]),
            decreases fired@.len() - f,
        {
            let index = fired[f];
            let ghost prev = self@;
            let ghost done = lefts;
            proof {
                assert(self@.in_range(index));
                assert(self@.slot_consistent(index));
            }
            let admitted = self.inner_schedule(index);
            proof {
                let left = choose|left: Command|
                    {
                        &&& #[trigger] left.same_declaration(&prev.command_at(index))
                        &&& !admitted ==> left.follows(
                            &prev.command_at(index),
                            LifecycleCall::End(true),
                        )
                        &&& self@ == prev.admitted_or_retired(index, left)
                    };
                assert(prev.left_fits(index, left));
                lefts = done.push(left);
                let next = fired@.take(f + 1);
                assert(next.drop_last() =~= fired@.take(f as int));
                assert(next.last() == index);
                assert(lefts.drop_last() =~= done);
                assert(lefts.last() == left);
            }
            f += 1;
        }
        proof {
            assert(fired@.take(fired@.len() as int) =~= fired@);
            assert(before.polled(samples).admitted_all(before.fired(samples, count as nat), lefts)
                == self@);
            assert(before.lefts_fit(before.fired(samples, before.conditions.len()), lefts)) by {
                before.lemma_lefts_fit_polled(samples, fired@, lefts);
            }
        }
    }

    /// The commands that a tick visits, each once: the owners of
    /// subsystems, the orphans, and the commands marked to be ended.
    fn active_commands(&self) -> (list: Vec<CommandIndex>)
        requires
            self.wf(),
        ensures
            list@.no_duplicates(),
            forall|index: CommandIndex| list@.contains(index) <==> self@.is_active(index),
    {
        let mut list: Vec<CommandIndex> = Vec::new();
        let entries = self.owner_entries();
        let mut e: usize = 0;
        while e < entries.len()
            invariant
                e <= entries@.len(),
                list@.no_duplicates(),
                forall|index: CommandIndex|
                    list@.contains(index) <==> exists|j: int|
                        0 <= j < e && (#[trigger] entries@[j]).1 == index,
            decreases entries@.len() - e,
        {
            let ghost before = list@;
            push_unique(&mut list, entries[e].1);
            proof {
                assert forall|index: CommandIndex| list@.contains(index) <==> exists|j: int|
                    0 <= j < e + 1 && (#[trigger] entries@[j]).1 == index by {
                    if exists|j: int| 0 <= j < e && (#[trigger] entries@[j]).1 == index {
                        let j = choose|j: int| 0 <= j < e && (#[trigger] entries@[j]).1 == index;
                        assert(0 <= j < e + 1 && entries@[j].1 == index);
                    }
                    if index == entries@[e as int].1 {
                        assert(0 <= e < e + 1 && entries@[e as int].1 == index);
                    }
                    if exists|j: int| 0 <= j < e + 1 && (#[trigger] entries@[j]).1 == index {
                        let j = choose|j: int|
                            0 <= j < e + 1 && (#[trigger] entries@[j]).1 == index;
                        if j < e {
                            assert(before.contains(index));
                        }
                    }
                }
            }
            e += 1;
        }
        proof {
            assert forall|index: CommandIndex| list@.contains(index) <==> self@.owns_some(
                index,
            ) by {
                if list@.contains(index) {
                    let j = choose|j: int|
                        0 <= j < entries@.len() && (#[trigger] entries@[j]).1 == index;
                    assert(self@.owners.contains_pair(entries@[j].0, entries@[j].1));
                }
                if self@.owns_some(index) {
                    let suid = choose|suid: SubsystemSUID| self@.owners.contains_pair(suid, index);
                    assert(self@.owners.contains_key(suid));
                    let j = choose|j: int|
                        0 <= j < entries@.len() && (#[trigger] entries@[j]).0 == suid;
                    assert(self@.owners.contains_pair(entries@[j].0, entries@[j].1));
                    assert(entries@[j].1 == index);
                }
            }
            assert forall|index: CommandIndex| self@.owns_some(index) implies self@.in_range(
                index,
            ) by {
                let suid = choose|suid: SubsystemSUID| self@.owners.contains_pair(suid, index);
                assert(self@.owner_consistent(suid));
            }
        }
        let (defaults, commands, preserved) = self.arena_lengths();
        let mut i: usize = 0;
        while i < defaults
            invariant
                i <= defaults,
                forall|j: usize| #[trigger]
                    self@.in_range(CommandIndex::DefaultCommand(j)) <==> j < defaults,
                list@.no_duplicates(),
                forall|index: CommandIndex|
                    list@.contains(index) <==> self@.owns_some(index) || (index
                        matches CommandIndex::DefaultCommand(j) && j < i && self@.is_active(index)),
                forall|index: CommandIndex| self@.owns_some(index) ==> self@.in_range(index),
            decreases defaults - i,
        {
            let index = CommandIndex::DefaultCommand(i);
            if self.is_orphaned(index) || self.interrupt_flag(index) == Some(true) {
                push_unique(&mut list, index);
            }
            i += 1;
        }
        proof {
            assert forall|index: CommandIndex|
                index is DefaultCommand && self@.is_active(index) implies index->DefaultCommand_0
                < defaults by {
                assert(self@.in_range(CommandIndex::DefaultCommand(index->DefaultCommand_0)));
            }
        }
        let mut i: usize = 0;
        while i < commands
            invariant
                i <= commands,
                forall|j: usize| #[trigger] self@.in_range(CommandIndex::Command(j)) <==> j < commands,
                list@.no_duplicates(),
                forall|index: CommandIndex|
                    list@.contains(index) <==> self@.owns_some(index) || (index is DefaultCommand
                        && self@.is_active(index)) || (index matches CommandIndex::Command(j) && j
                        < i && self@.is_active(index)),
                forall|index: CommandIndex| self@.owns_some(index) ==> self@.in_range(index),
            decreases commands - i,
        {
            let index = CommandIndex::Command(i);
            if self.is_orphaned(index) || self.interrupt_flag(index) == Some(true) {
                push_unique(&mut list, index);
            }
            i += 1;
        }
        proof {
            assert forall|index: CommandIndex|
                index is Command && self@.is_active(index) implies index->Command_0 < commands by {
                assert(self@.in_range(CommandIndex::Command(index->Command_0)));
            }
        }
        let mut i: usize = 0;
        while i < preserved
            invariant
                i <= preserved,
                forall|j: usize| #[trigger]
                    self@.in_range(CommandIndex::PreservedCommand(j)) <==> j < preserved,
                list@.no_duplicates(),
                forall|index: CommandIndex|
                    list@.contains(index) <==> self@.owns_some(index) || (index is DefaultCommand
                        && self@.is_active(index)) || (index is Command && self@.is_active(index))
                        || (index matches CommandIndex::PreservedCommand(j) && j < i
                        && self@.is_active(index)),
                forall|index: CommandIndex| self@.owns_some(index) ==> self@.in_range(index),
            decreases preserved - i,
        {
            let index = CommandIndex::PreservedCommand(i);
            if self.is_orphaned(index) || self.interrupt_flag(index) == Some(true) {
                push_unique(&mut list, index);
            }
            i += 1;
        }
        proof {
            assert forall|index: CommandIndex|
                index is PreservedCommand && self@.is_active(
                    index,
                ) implies index->PreservedCommand_0 < preserved by {
                assert(self@.in_range(CommandIndex::PreservedCommand(index->PreservedCommand_0)));
            }
        }
        list
    }

    /// Visits the place `index`.
    ///
    /// A place that holds no tracked command is passed over. A command
    /// marked to be interrupted is ended as interrupted and nothing else.
    /// Any other command is initialised if it was not, runs one cycle, and
    /// is ended as not interrupted if it reports that it is finished. The
    /// first cycle of a command is handed no elapsed time; a later one is
    /// handed `tick_elapsed`. A command that has ended is no longer
    /// tracked.
    fn visit(&mut self, index: CommandIndex, tick_elapsed: Duration)
        requires
            old(self).wf(),
        ensures
            final(self).wf(),
            exists|left: Command, finished: bool|
                {
                    &&& #[trigger] old(self)@.visit_fits(index, left, finished)
                    &&& final(self)@ == old(self)@.visited(index, left, finished)
                },
    {
        if !self.holds_command(index) || self.interrupt_flag(index).is_none() {
            proof {
                let any = arbitrary::<Command>();
                assert(old(self)@.visit_fits(index, any, false));
                assert(self@ == old(self)@.visited(index, any, false));
            }
            return ;
        }
        proof {
            assert(self@.slot_consistent(index));
        }
        let slot = self.take_slot(index);
        let plan = Visit::plan(&slot);
        let Slot { command, interrupt, initialized, orphaned } = slot;
        let mut command = command.unwrap();
        let ghost held = command;
        let finished = match plan {
            Visit::Interrupt => {
                command.end(true);
                false
            },
            Visit::Start => {
                command.init();
                let ghost started = command;
                let none = duration_from_secs(0);
                let finished = run_cycle(&mut command, none);
                proof {
                    assert(command.cycled(&started, none, finished));
                }
                finished
            },
            Visit::Continue => {
                let finished = run_cycle(&mut command, tick_elapsed);
                proof {
                    assert(command.cycled(&held, tick_elapsed, finished));
                }
                finished
            },
        };
        proof {
            assert(plan.leaves(&held, &command, finished));
        }
        let ended = match plan {
            Visit::Interrupt => true,
            _ => finished,
        };
        let ghost left = command;
        let ghost calls = plan.calls(finished);
        proof {
            assert(old(self)@.visit_fits(index, left, finished));
            old(self)@.lemma_visited_wf(index, left, finished);
        }
        self.log(index, Ghost(calls));
        if ended {
            self.put_slot(
                index,
                Slot { command: Some(command), interrupt, initialized: false, orphaned },
            );
            proof {
                let stopped = Slot { initialized: false, ..old(self)@.slot(index).holding(left) };
                let halted = old(self)@.logged(index, calls).with_slot(index, stopped);
                assert(self@.slots =~= halted.slots);
                assert(self@ == halted);
                if old(self)@.owns_some(index) {
                    let suid = choose|suid: SubsystemSUID|
                        old(self)@.owners.contains_pair(suid, index);
                    assert(old(self)@.owner_consistent(suid));
                }
                Visit::lemma_calls(old(self)@.slot(index), finished);
                old(self)@.lemma_logged_wf(index, calls, stopped);
            }
            self.remove_command(index);
            proof {
                let target = old(self)@.visited(index, left, finished);
                assert(self@.slots =~= target.slots);
                assert(self@.owners =~= target.owners);
            }
        } else {
            self.put_slot(
                index,
                Slot { command: Some(command), interrupt, initialized: true, orphaned },
            );
            proof {
                let target = old(self)@.visited(index, left, finished);
                assert(self@.slots =~= target.slots);
            }
        }
    }

    /// The fourth phase of a tick: every active place is visited once.
    ///
    /// The places to visit are fixed before the first visit. A command that
    /// ends during its visit is no longer tracked from then on, and the
    /// subsystems it owned are free.
    pub(crate) fn run_commands(&mut self)
        requires
            old(self).wf(),
        ensures
            final(self).wf(),
            old(self)@.commands_run(final(self)@),
            forall|index: CommandIndex| !final(self)@.flagged(index),
    {
        let tick_elapsed = self.start_tick();
        let ghost before = self@;
        let ghost mut lefts: Seq<Command> = Seq::empty();
        let ghost mut answers: Seq<bool> = Seq::empty();
        let list = self.active_commands();
        let mut k: usize = 0;
        while k < list.len()
            invariant
                k <= list@.len(),
                before == old(self)@,
                before.wf(),
                self.wf(),
                before.visits_fit(list@.take(k as int), lefts, answers),
                self@ == before.visited_all(list@.take(k as int), lefts, answers),
            decreases list@.len() - k,
        {
            let index = list[k];
            let ghost prev = self@;
            let ghost seen_lefts = lefts;
            let ghost seen_answers = answers;
            self.visit(index, tick_elapsed);
            proof {
                let (left, finished) = choose|left: Command, finished: bool|
                    {
                        &&& #[trigger] prev.visit_fits(index, left, finished)
                        &&& self@ == prev.visited(index, left, finished)
                    };
                lefts = seen_lefts.push(left);
                answers = seen_answers.push(finished);
                let next = list@.take(k + 1);
                assert(next.drop_last() =~= list@.take(k as int));
                assert(next.last() == index);
                assert(lefts.drop_last() =~= seen_lefts);
                assert(answers.drop_last() =~= seen_answers);
            }
            k += 1;
        }
        proof {
            assert(list@.take(list@.len() as int) =~= list@);
            before.lemma_tick_clears_marks(list@, lefts, answers);
        }
    }
}

} // verus!
