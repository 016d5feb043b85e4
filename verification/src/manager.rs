//! The scheduler.
//!
//! [`CommandManager`] holds the commands and runs them. Its view is a
//! [`SchedulerState`]; each of its operations is proved to take the view
//! through the matching function of [`crate::transitions`].
//!
//! This module holds the data, the public operations, and the few functions
//! that touch the data directly. The commands are held in three arenas;
//! what is noted about them is kept in hash tables ([`crate::owners`]).
//! Admission is in [`crate::admission`], the phases of a tick are in
//! [`crate::tick`].

use std::time::{Duration, Instant};
use vstd::prelude::*;

use crate::commands::Command;
use crate::conditions::ConditionalScheduler;
use crate::context::SchedulerContext;
use crate::history::{events_of, Event, HookCall};
use crate::hooks::PeriodicHook;
use crate::owners::{
    clear_flag, clear_owner, drop_key, empty_flags, empty_keys, empty_table, entries_of, flag_of,
    holds_key, key_of, owner_of, put_key, set_flag, set_owner, slot_key, FlagTable, KeySet,
    OwnerTable,
};
use crate::requirement::SubsystemSUID;
use crate::state::{CommandIndex, SchedulerState, Slot, SubsystemRun};
use crate::time::{duration_from_secs, duration_nanos, instant_elapsed, instant_now};

verus! {

/// The errors of the scheduler.
#[derive(Debug, Clone, Copy, PartialEq, Eq, Structural)]
pub enum CommandManagerError {
    /// A subsystem with the same identifier is registered already.
    SubsystemAlreadyRegistered,
}

/// The periodic hook of a registered subsystem, and when it last ran.
struct SubsystemRecord {
    periodic: Box<dyn PeriodicHook>,
    last_run: Option<Instant>,
}

impl SubsystemRecord {
    /// Whether the hook of the record is the hook made of the closure `f`.
    spec fn runs<F: FnMut(Duration) + 'static>(&self, f: F) -> bool {
        let made: Box<dyn PeriodicHook> = Box::new(f);
        self.periodic == made
    }

    /// The record of a hook that has not run yet: the first run is handed
    /// no time.
    fn new(periodic: impl FnMut(Duration) + 'static) -> (record: Self)
        ensures
            record.last_run is None,
            record.runs(periodic),
    {
        SubsystemRecord { periodic: Box::new(periodic), last_run: None }
    }
}

/// For each record, in order, whether its hook has run.
spec fn ran_flags(records: Seq<SubsystemRecord>) -> Seq<bool> {
    Seq::new(records.len(), |i: int| records[i].last_run is Some)
}

/// The scheduler: three arenas of commands, the tables that say who owns
/// which subsystem and what is noted about each command, and the registered
/// subsystems and conditional schedulers.
pub struct CommandManager {
    subsystems: Vec<SubsystemRecord>,
    registered: Vec<SubsystemSUID>,
    commands: Vec<Option<Command>>,
    default_commands: Vec<Option<Command>>,
    preserved_commands: Vec<Option<Command>>,
    interrupt_state: FlagTable,
    subsystem_to_default: OwnerTable,
    requirements: OwnerTable,
    initialized_commands: KeySet,
    orphaned_commands: KeySet,
    cond_schedulers: Vec<ConditionalScheduler>,
    last_run: Option<Instant>,
    history: Ghost<Seq<Event>>,
    subsystem_runs: Ghost<Seq<SubsystemRun>>,
}

impl View for CommandManager {
    type V = SchedulerState;

    closed spec fn view(&self) -> SchedulerState {
        SchedulerState {
            slots: Map::new(|index: CommandIndex| self.has_place(index), |index: CommandIndex| self.place(index)),
            owners: self.requirements@,
            defaults: self.subsystem_to_default@,
            registered: self.registered@,
            conditions: self.cond_schedulers@,
            history: self.history@,
            hooks: ran_flags(self.subsystems@),
            subsystem_runs: self.subsystem_runs@,
        }
    }
}

/// The operations of the scheduler.
impl CommandManager {
    spec fn has_place(&self, index: CommandIndex) -> bool {
        match index {
            CommandIndex::DefaultCommand(i) => i < self.default_commands@.len(),
            CommandIndex::Command(i) => i < self.commands@.len(),
            CommandIndex::PreservedCommand(i) => i < self.preserved_commands@.len(),
        }
    }

    spec fn held(&self, index: CommandIndex) -> Option<Command> {
        match index {
            CommandIndex::DefaultCommand(i) => self.default_commands@[i as int],
            CommandIndex::Command(i) => self.commands@[i as int],
            CommandIndex::PreservedCommand(i) => self.preserved_commands@[i as int],
        }
    }

    spec fn place(&self, index: CommandIndex) -> Slot {
        let key = key_of(index);
        Slot {
            command: self.held(index),
            interrupt: if self.interrupt_state@.contains_key(key) {
                Some(self.interrupt_state@[key])
            } else {
                None
            },
            initialized: self.initialized_commands@.contains(key),
            orphaned: self.orphaned_commands@.contains(key),
        }
    }

    /// The invariant of the scheduler: that of its state.
    pub open spec fn wf(&self) -> bool {
        self@.wf()
    }

    /// Whether the periodic hook of the subsystem registered at `position`
    /// is the hook made of the closure `f`.
    pub closed spec fn holds_hook<F: FnMut(Duration) + 'static>(&self, position: int, f: F) -> bool {
        0 <= position < self.subsystems@.len() && self.subsystems@[position].runs(f)
    }

    /// Whether the visits of some tick have started on this scheduler.
    pub closed spec fn has_ticked(&self) -> bool {
        self.last_run is Some
    }

    /// A scheduler that holds nothing, bound to `context`, whose queues it
    /// empties.
    #[must_use]
    pub fn new(context: &mut SchedulerContext) -> (manager: Self)
        ensures
            manager@ == SchedulerState::empty(),
            manager.wf(),
            !manager.has_ticked(),
            final(context).is_bound(),
            final(context).pending_commands().len() == 0,
            final(context).pending_conditions().len() == 0,
    {
        context.bind();
        let manager = CommandManager {
            subsystems: Vec::new(),
            registered: Vec::new(),
            commands: Vec::new(),
            default_commands: Vec::new(),
            preserved_commands: Vec::new(),
            interrupt_state: empty_flags(),
            subsystem_to_default: empty_table(),
            requirements: empty_table(),
            initialized_commands: empty_keys(),
            orphaned_commands: empty_keys(),
            cond_schedulers: Vec::new(),
            last_run: None,
            history: Ghost(Seq::empty()),
            subsystem_runs: Ghost(Seq::empty()),
        };
        proof {
            assert(manager@.slots =~= Map::<CommandIndex, Slot>::empty());
            assert(manager@.hooks =~= Seq::<bool>::empty());
        }
        manager
    }

    /// Unbinds the scheduler from `context`: whatever waits in the queues is
    /// dropped, and later submissions fail.
    pub fn release(self, context: &mut SchedulerContext)
        ensures
            !final(context).is_bound(),
    {
        context.unbind();
    }

    /// Registers a subsystem: its periodic hook runs at every tick, and its
    /// default command, if it has one, runs whenever no other command owns
    /// the subsystem.
    ///
    /// # Errors
    /// [`CommandManagerError::SubsystemAlreadyRegistered`] if a subsystem with
    /// the same identifier is registered; the scheduler is then left as it
    /// was.
    pub fn register_subsystem(
        &mut self,
        suid: SubsystemSUID,
        periodic: impl FnMut(Duration) + 'static,
        default_command: Option<Command>,
    ) -> (result: Result<(), CommandManagerError>)
        requires
            old(self).wf(),
        ensures
            final(self).wf(),
            old(self)@.defaults.contains_key(suid) ==> {
                &&& result == Err::<(), CommandManagerError>(
                    CommandManagerError::SubsystemAlreadyRegistered,
                )
                &&& final(self)@ == old(self)@
            },
            !old(self)@.defaults.contains_key(suid) ==> {
                &&& result is Ok
                &&& final(self)@ == old(self)@.registered_with(suid, default_command)
                &&& final(self).holds_hook(old(self)@.registered.len() as int, periodic)
            },
    {
        if owner_of(&self.subsystem_to_default, suid).is_some() {
            return Err(CommandManagerError::SubsystemAlreadyRegistered);
        }
        let position = self.default_commands.len();
        proof {
            let count = self.registered@.len();
            if count < position {
                assert(self@.in_range(CommandIndex::DefaultCommand(count as usize)));
            } else if position < count {
                assert(!self@.in_range(CommandIndex::DefaultCommand(position)));
            }
        }
        self.subsystems.push(SubsystemRecord::new(periodic));
        self.registered.push(suid);
        let count = self.registered.len();
        let index = CommandIndex::DefaultCommand(position);
        self.default_commands.push(default_command);
        self.note(index, Some(false), false, false);
        set_owner(&mut self.subsystem_to_default, suid, index);
        proof {
            let target = old(self)@.registered_with(suid, default_command);
            assert forall|other: CommandIndex| self@.slots.contains_key(other) implies #[trigger]
                self@.slots[other] == target.slots[other] by {
                if other != index {
                    assert(key_of(other) != key_of(index));
                }
            }
            assert(self@.slots =~= target.slots);
            assert(self@.hooks =~= target.hooks);
            old(self)@.lemma_registered_wf(suid, default_command);
        }
        Ok(())
    }

    /// Takes `command` in and decides at once whether it may run, without
    /// going through the queue.
    ///
    /// A command that is refused is ended as interrupted at once, and its
    /// place is free again.
    pub fn schedule(&mut self, command: Command)
        requires
            old(self).wf(),
        ensures
            final(self).wf(),
            final(self)@ == old(self)@.scheduled(command),
    {
        let index = self.add_command(command);
        let ghost taken = self@;
        let admitted = self.inner_schedule(index);
        proof {
            let left = choose|left: Command|
                {
                    &&& #[trigger] left.same_declaration(&taken.command_at(index))
                    &&& self@ == taken.admitted_or_retired(index, left)
                };
            if !admitted {
                taken.lemma_retired_command(index, left);
            }
        }
    }

    /// Takes the command of `scheduler` into a new preserved place and keeps
    /// the scheduler, which from now on is polled at every tick.
    pub fn add_cond_scheduler(&mut self, scheduler: ConditionalScheduler)
        requires
            old(self).wf(),
            scheduler.held_command() is Some,
        ensures
            final(self).wf(),
            final(self)@ == old(self)@.with_condition(scheduler),
    {
        let mut scheduler = scheduler;
        let ghost given = scheduler;
        let position = self.preserved_commands.len();
        let index = CommandIndex::PreservedCommand(position);
        proof {
            assert(self@.preserved_end(position));
            self@.lemma_next_preserved(position);
            self@.lemma_with_condition_wf(given);
        }
        let command = scheduler.exchange(index);
        self.preserved_commands.push(Some(command));
        self.note(index, Some(false), false, false);
        self.cond_schedulers.push(scheduler);
        proof {
            let target = old(self)@.with_condition(given);
            assert forall|other: CommandIndex| self@.slots.contains_key(other) implies #[trigger]
                self@.slots[other] == target.slots[other] by {
                if other != index {
                    assert(key_of(other) != key_of(index));
                }
            }
            assert(self@.slots =~= target.slots);
            assert(self@.conditions =~= target.conditions);
        }
    }

    /// Drops all conditional schedulers. Their commands stay in their
    /// places; one that is running runs on to its end.
    pub fn clear_conditional_schedulers(&mut self)
        requires
            old(self).wf(),
        ensures
            final(self).wf(),
            final(self)@ == (SchedulerState { conditions: Seq::empty(), ..old(self)@ }),
    {
        self.cond_schedulers.clear();
        proof {
            let target = SchedulerState { conditions: Seq::empty(), ..old(self)@ };
            assert(self@.conditions =~= target.conditions);
            assert(self@.slots =~= target.slots);
            assert forall|i: usize| #[trigger]
                self@.in_range(CommandIndex::DefaultCommand(i)) <==> i < self@.registered.len() by {
                assert(old(self)@.in_range(CommandIndex::DefaultCommand(i)) <==> i < old(
                    self,
                )@.registered.len());
            }
            assert forall|index: CommandIndex| self@.in_range(index) implies #[trigger]
                self@.slot_consistent(index) by {
                assert(old(self)@.slot_consistent(index));
            }
            assert forall|index: CommandIndex| self@.in_range(index) implies #[trigger]
                self@.claims_honoured(index) by {
                assert(old(self)@.in_range(index));
                assert(old(self)@.claims_honoured(index));
                assert(self@.owners == old(self)@.owners);
                assert(self@.slot(index) == old(self)@.slot(index));
                assert(self@.owns_some(index) == old(self)@.owns_some(index));
                assert(self@.needs(index) == old(self)@.needs(index));
            }
            assert forall|index: CommandIndex| #[trigger] self@.history_agrees(index) by {
                assert(old(self)@.history_agrees(index));
            }
            assert forall|suid: SubsystemSUID| self@.owners.contains_key(suid) implies #[trigger]
                self@.owner_consistent(suid) by {
                assert(old(self)@.owner_consistent(suid));
            }
        }
    }

    /// One tick.
    ///
    /// In this order: everything that waits in the queues of `context` is
    /// taken in and admitted; the periodic hook of every subsystem runs and
    /// the subsystems without an owner go to their defaults; the
    /// conditional schedulers are polled and what they fire is admitted;
    /// every active command is visited once, and those that end are no
    /// longer tracked.
    pub fn run(&mut self, context: &mut SchedulerContext)
        requires
            old(self).wf(),
            old(context).conditions_hold_commands(),
        ensures
            final(self).wf(),
            old(self)@.ticked(
                old(context).pending_commands(),
                old(context).pending_conditions(),
                final(self)@,
            ),
            forall|index: CommandIndex| !final(self)@.flagged(index),
            final(context).is_bound() == old(context).is_bound(),
            final(context).pending_commands().len() == 0,
            final(context).pending_conditions().len() == 0,
    {
        self.update(context);
        let ghost drained = self@;
        let periods = self.run_subsystems();
        let ghost restored = self@;
        self.run_cond_schedulers();
        let ghost polled = self@;
        self.run_commands();
        proof {
            assert(drained.periods_fit(periods@));
            assert(restored == drained.subsystems_run(periods@).defaults_restored());
            assert(restored.conditions_run(polled));
            assert(polled.commands_run(self@));
        }
    }
}

/// What the scheduler can be asked.
impl CommandManager {
    /// Whether `index` names a place of its arena.
    pub fn has_slot(&self, index: CommandIndex) -> (found: bool)
        ensures
            found == self@.in_range(index),
    {
        match index {
            CommandIndex::DefaultCommand(i) => i < self.default_commands.len(),
            CommandIndex::Command(i) => i < self.commands.len(),
            CommandIndex::PreservedCommand(i) => i < self.preserved_commands.len(),
        }
    }

    /// The command that owns the subsystem `suid`, if there is one.
    pub fn owner(&self, suid: SubsystemSUID) -> (owner: Option<CommandIndex>)
        ensures
            owner == if self@.owners.contains_key(suid) {
                Some(self@.owners[suid])
            } else {
                None::<CommandIndex>
            },
    {
        owner_of(&self.requirements, suid)
    }

    /// Whether a command is held under `index`.
    pub fn holds_command(&self, index: CommandIndex) -> (held: bool)
        ensures
            held == self@.holds(index),
    {
        self.has_slot(index) && self.command_ref(index).is_some()
    }

    /// Whether the command under `index` has been initialised and has not
    /// ended.
    pub fn is_initialized(&self, index: CommandIndex) -> (initialized: bool)
        ensures
            initialized == self@.initialized().contains(index),
    {
        self.has_slot(index) && holds_key(&self.initialized_commands, slot_key(index))
    }

    /// Whether the command under `index` runs as an orphan.
    pub fn is_orphaned(&self, index: CommandIndex) -> (orphaned: bool)
        ensures
            orphaned == self@.orphaned().contains(index),
    {
        self.has_slot(index) && holds_key(&self.orphaned_commands, slot_key(index))
    }

    /// Whether the command under `index` is marked to be interrupted;
    /// `None` if the scheduler does not track it.
    pub fn interrupt_flag(&self, index: CommandIndex) -> (flag: Option<bool>)
        ensures
            flag == if self@.interrupt_state().contains_key(index) {
                Some(self@.interrupt_state()[index])
            } else {
                None::<bool>
            },
    {
        if self.has_slot(index) {
            flag_of(&self.interrupt_state, slot_key(index))
        } else {
            None
        }
    }
}

/// The functions that touch the data directly.
impl CommandManager {
    /// The command held in the place `index`, if there is one.
    pub(crate) fn command_ref(&self, index: CommandIndex) -> (command: &Option<Command>)
        requires
            self@.in_range(index),
        ensures
            *command == self@.slot(index).command,
    {
        match index {
            CommandIndex::DefaultCommand(i) => &self.default_commands[i],
            CommandIndex::Command(i) => &self.commands[i],
            CommandIndex::PreservedCommand(i) => &self.preserved_commands[i],
        }
    }

    /// Takes what the place holds, and what is noted about it, and leaves
    /// the place vacant.
    pub(crate) fn take_slot(&mut self, index: CommandIndex) -> (slot: Slot)
        requires
            old(self)@.in_range(index),
        ensures
            slot == old(self)@.slot(index),
            final(self)@.slot(index).is_vacant(),
            final(self)@ == old(self)@.with_slot(index, final(self)@.slot(index)),
    {
        let key = slot_key(index);
        let command = match index {
            CommandIndex::DefaultCommand(i) => self.default_commands[i].take(),
            CommandIndex::Command(i) => self.commands[i].take(),
            CommandIndex::PreservedCommand(i) => self.preserved_commands[i].take(),
        };
        let interrupt = flag_of(&self.interrupt_state, key);
        clear_flag(&mut self.interrupt_state, key);
        let initialized = holds_key(&self.initialized_commands, key);
        drop_key(&mut self.initialized_commands, key);
        let orphaned = holds_key(&self.orphaned_commands, key);
        drop_key(&mut self.orphaned_commands, key);
        proof {
            let target = old(self)@.with_slot(index, self@.slot(index));
            assert forall|other: CommandIndex| self@.slots.contains_key(other) implies #[trigger]
                self@.slots[other] == target.slots[other] by {
                if other != index {
                    assert(key_of(other) != key);
                }
            }
            assert(self@.slots =~= target.slots);
        }
        Slot { command, interrupt, initialized, orphaned }
    }

    /// Notes about the place `index` what `slot` says; the place does not
    /// have to exist yet.
    fn note(&mut self, index: CommandIndex, interrupt: Option<bool>, initialized: bool, orphaned: bool)
        ensures
            final(self).commands == old(self).commands,
            final(self).default_commands == old(self).default_commands,
            final(self).preserved_commands == old(self).preserved_commands,
            final(self).subsystems == old(self).subsystems,
            final(self).registered == old(self).registered,
            final(self).subsystem_to_default == old(self).subsystem_to_default,
            final(self).requirements == old(self).requirements,
            final(self).cond_schedulers == old(self).cond_schedulers,
            final(self).history == old(self).history,
            final(self).subsystem_runs == old(self).subsystem_runs,
            final(self).interrupt_state@ == (match interrupt {
                Some(flag) => old(self).interrupt_state@.insert(key_of(index), flag),
                None => old(self).interrupt_state@.remove(key_of(index)),
            }),
            final(self).initialized_commands@ == if initialized {
                old(self).initialized_commands@.insert(key_of(index))
            } else {
                old(self).initialized_commands@.remove(key_of(index))
            },
            final(self).orphaned_commands@ == if orphaned {
                old(self).orphaned_commands@.insert(key_of(index))
            } else {
                old(self).orphaned_commands@.remove(key_of(index))
            },
    {
        let key = slot_key(index);
        match interrupt {
            Some(flag) => set_flag(&mut self.interrupt_state, key, flag),
            None => clear_flag(&mut self.interrupt_state, key),
        }
        if initialized {
            put_key(&mut self.initialized_commands, key);
        } else {
            drop_key(&mut self.initialized_commands, key);
        }
        if orphaned {
            put_key(&mut self.orphaned_commands, key);
        } else {
            drop_key(&mut self.orphaned_commands, key);
        }
    }

    /// Sets the interruption mark of the place `index`.
    pub(crate) fn mark(&mut self, index: CommandIndex, interrupted: bool)
        requires
            old(self)@.in_range(index),
        ensures
            final(self)@ == old(self)@.with_slot(index, old(self)@.slot(index).marked(interrupted)),
    {
        set_flag(&mut self.interrupt_state, slot_key(index), interrupted);
        proof {
            let target = old(self)@.with_slot(index, old(self)@.slot(index).marked(interrupted));
            assert forall|other: CommandIndex| self@.slots.contains_key(other) implies #[trigger]
                self@.slots[other] == target.slots[other] by {
                if other != index {
                    assert(key_of(other) != key_of(index));
                }
            }
            assert(self@.slots =~= target.slots);
        }
    }

    /// Notes that the command under `index` runs as an orphan, and is not
    /// marked to be interrupted.
    pub(crate) fn mark_orphan(&mut self, index: CommandIndex)
        requires
            old(self)@.in_range(index),
        ensures
            final(self)@ == old(self)@.orphan_marked(index),
    {
        set_flag(&mut self.interrupt_state, slot_key(index), false);
        put_key(&mut self.orphaned_commands, slot_key(index));
        proof {
            let target = old(self)@.orphan_marked(index);
            assert forall|other: CommandIndex| self@.slots.contains_key(other) implies #[trigger]
                self@.slots[other] == target.slots[other] by {
                if other != index {
                    assert(key_of(other) != key_of(index));
                }
            }
            assert(self@.slots =~= target.slots);
        }
    }

    /// Puts `slot` in the place.
    pub(crate) fn put_slot(&mut self, index: CommandIndex, slot: Slot)
        requires
            old(self)@.in_range(index),
        ensures
            final(self)@ == old(self)@.with_slot(index, slot),
    {
        let Slot { command, interrupt, initialized, orphaned } = slot;
        match index {
            CommandIndex::DefaultCommand(i) => {
                self.default_commands.set(i, command);
            },
            CommandIndex::Command(i) => {
                self.commands.set(i, command);
            },
            CommandIndex::PreservedCommand(i) => {
                self.preserved_commands.set(i, command);
            },
        }
        self.note(index, interrupt, initialized, orphaned);
        proof {
            let target = old(self)@.with_slot(index, slot);
            assert forall|other: CommandIndex| self@.slots.contains_key(other) implies #[trigger]
                self@.slots[other] == target.slots[other] by {
                if other != index {
                    assert(key_of(other) != key_of(index));
                }
            }
            assert(self@.slots =~= target.slots);
        }
    }

    /// The first place of the command arena that holds nothing, or the
    /// length of the arena if every place is taken.
    fn first_vacancy(&self) -> (position: usize)
        ensures
            position <= self.commands@.len(),
            self@.first_free(position),
    {
        let mut position: usize = 0;
        while position < self.commands.len()
            invariant
                position <= self.commands@.len(),
                forall|k: usize| k < position ==> #[trigger] self@.holds(CommandIndex::Command(k)),
            decreases self.commands@.len() - position,
        {
            if self.commands[position].is_none() {
                return position;
            }
            position += 1;
        }
        position
    }

    /// Puts `command` in the first vacant place of the command arena, or in a
    /// new place at its end.
    pub(crate) fn add_command(&mut self, command: Command) -> (index: CommandIndex)
        requires
            old(self).wf(),
        ensures
            final(self).wf(),
            index == old(self)@.next_handle(),
            index is Command,
            final(self)@ == old(self)@.added(command),
            final(self)@.holds(index),
    {
        let position = self.first_vacancy();
        let index = CommandIndex::Command(position);
        proof {
            self@.lemma_next_handle(position);
            self@.lemma_added_wf(command);
        }
        if position < self.commands.len() {
            self.put_slot(
                index,
                Slot {
                    command: Some(command),
                    interrupt: Some(false),
                    initialized: false,
                    orphaned: false,
                },
            );
        } else {
            self.commands.push(Some(command));
            self.note(index, Some(false), false, false);
            proof {
                let target = old(self)@.added(command);
            assert forall|other: CommandIndex| self@.slots.contains_key(other) implies #[trigger]
                self@.slots[other] == target.slots[other] by {
                if other != index {
                    assert(key_of(other) != key_of(index));
                }
            }
                assert(self@.slots =~= target.slots);
            }
        }
        index
    }

    /// Forgets every entry of the table of owners that names `index`.
    fn release_subsystems(&mut self, index: CommandIndex)
        ensures
            final(self)@ == (SchedulerState {
                owners: old(self)@.reaped(index).owners,
                ..old(self)@
            }),
    {
        let entries = entries_of(&self.requirements);
        let mut k: usize = 0;
        while k < entries.len()
            invariant
                k <= entries@.len(),
                self@.slots == old(self)@.slots,
                self@.defaults == old(self)@.defaults,
                self@.registered == old(self)@.registered,
                self@.conditions == old(self)@.conditions,
                self@.history == old(self)@.history,
                self@.hooks == old(self)@.hooks,
                self@.subsystem_runs == old(self)@.subsystem_runs,
                forall|i: int|
                    0 <= i < entries@.len() ==> old(self)@.owners.contains_pair(
                        (#[trigger] entries@[i]).0,
                        entries@[i].1,
                    ),
                forall|suid: SubsystemSUID|
                    #![trigger self@.owners.contains_key(suid)]
                    self@.owners.contains_key(suid) <==> {
                        &&& old(self)@.owners.contains_key(suid)
                        &&& !(exists|i: int|
                            0 <= i < k && (#[trigger] entries@[i]).0 == suid && entries@[i].1
                                == index)
                    },
                forall|suid: SubsystemSUID|
                    self@.owners.contains_key(suid) ==> #[trigger] self@.owners[suid] == old(
                        self,
                    )@.owners[suid],
            decreases entries@.len() - k,
        {
            let (suid, owner) = entries[k];
            let ghost prev = self@;
            if owner == index {
                clear_owner(&mut self.requirements, suid);
            }
            proof {
                assert(self@.slots =~= prev.slots);
                assert(self@.owners == if owner == index {
                    prev.owners.remove(suid)
                } else {
                    prev.owners
                });
                assert forall|s: SubsystemSUID| self@.owners.contains_key(s) implies #[trigger]
                    self@.owners[s] == old(self)@.owners[s] by {
                    assert(prev.owners.contains_key(s));
                    assert(prev.owners[s] == old(self)@.owners[s]);
                }
                assert forall|other: SubsystemSUID|
                    #![trigger self@.owners.contains_key(other)]
                    self@.owners.contains_key(other) <==> {
                        &&& old(self)@.owners.contains_key(other)
                        &&& !(exists|i: int|
                            0 <= i < k + 1 && (#[trigger] entries@[i]).0 == other
                                && entries@[i].1 == index)
                    } by {
                    if other == suid && owner == index {
                        assert(entries@[k as int].0 == other && entries@[k as int].1 == index);
                    }
                    if exists|i: int|
                        0 <= i < k + 1 && (#[trigger] entries@[i]).0 == other && entries@[i].1
                            == index {
                        let i = choose|i: int|
                            0 <= i < k + 1 && (#[trigger] entries@[i]).0 == other
                                && entries@[i].1 == index;
                        if i == k {
                        } else {
                            assert(0 <= i < k && entries@[i].0 == other && entries@[i].1 == index);
                        }
                    }
                }
            }
            k += 1;
        }
        proof {
            let target = old(self)@.reaped(index).owners;
            assert forall|suid: SubsystemSUID| self@.owners.contains_key(suid)
                <==> target.contains_key(suid) by {
                if old(self)@.owners.contains_key(suid) {
                    let i = choose|i: int|
                        0 <= i < entries@.len() && (#[trigger] entries@[i]).0 == suid;
                    assert(old(self)@.owners.contains_pair(entries@[i].0, entries@[i].1));
                    if old(self)@.owners[suid] != index {
                        if exists|j: int|
                            0 <= j < entries@.len() && (#[trigger] entries@[j]).0 == suid
                                && entries@[j].1 == index {
                            let j = choose|j: int|
                                0 <= j < entries@.len() && (#[trigger] entries@[j]).0 == suid
                                    && entries@[j].1 == index;
                            assert(old(self)@.owners.contains_pair(entries@[j].0, entries@[j].1));
                        }
                    }
                }
            }
            assert(self@.owners =~= target);
        }
    }

    /// Stops tracking the command under `command_idx`, which has ended or
    /// never started: it is no longer interrupted or orphaned, it owns
    /// nothing, and its place is emptied if it is an ordinary command.
    pub(crate) fn remove_command(&mut self, command_idx: CommandIndex)
        requires
            old(self).wf(),
            old(self)@.in_range(command_idx),
            !old(self)@.slot(command_idx).initialized,
        ensures
            final(self).wf(),
            final(self)@ == old(self)@.reaped(command_idx),
    {
        proof {
            self@.lemma_reaped_wf(command_idx);
        }
        self.release_subsystems(command_idx);
        let slot = self.take_slot(command_idx);
        let command = match command_idx {
            CommandIndex::Command(_) => None,
            _ => slot.command,
        };
        self.put_slot(
            command_idx,
            Slot { command, interrupt: None, initialized: false, orphaned: false },
        );
        proof {
            assert(self@.slots =~= old(self)@.reaped(command_idx).slots);
        }
    }

    /// Makes `index` the owner of the subsystem `suid`.
    pub(crate) fn give(&mut self, suid: SubsystemSUID, index: CommandIndex)
        ensures
            final(self)@ == (SchedulerState {
                owners: old(self)@.owners.insert(suid, index),
                ..old(self)@
            }),
    {
        set_owner(&mut self.requirements, suid, index);
        proof {
            assert(self@.slots =~= old(self)@.slots);
        }
    }

    /// The entries of the table of owners, in an order that is not
    /// specified.
    pub(crate) fn owner_entries(&self) -> (entries: Vec<(SubsystemSUID, CommandIndex)>)
        ensures
            forall|i: int|
                0 <= i < entries@.len() ==> self@.owners.contains_pair(
                    (#[trigger] entries@[i]).0,
                    entries@[i].1,
                ),
            forall|suid: SubsystemSUID| #[trigger]
                self@.owners.contains_key(suid) ==> exists|i: int|
                    0 <= i < entries@.len() && (#[trigger] entries@[i]).0 == suid,
    {
        entries_of(&self.requirements)
    }

    /// The lengths of the arenas of defaults, of ordinary commands and of
    /// preserved commands.
    pub(crate) fn arena_lengths(&self) -> (lengths: (usize, usize, usize))
        ensures
            forall|i: usize| #[trigger]
                self@.in_range(CommandIndex::DefaultCommand(i)) <==> i < lengths.0,
            forall|i: usize| #[trigger] self@.in_range(CommandIndex::Command(i)) <==> i < lengths.1,
            forall|i: usize| #[trigger]
                self@.in_range(CommandIndex::PreservedCommand(i)) <==> i < lengths.2,
    {
        (self.default_commands.len(), self.commands.len(), self.preserved_commands.len())
    }

    /// The number of registered subsystems.
    pub(crate) fn registered_count(&self) -> (count: usize)
        ensures
            count == self@.registered.len(),
    {
        self.registered.len()
    }

    /// The identifier of the subsystem that was registered as number
    /// `position`.
    pub(crate) fn registered_suid(&self, position: usize) -> (suid: SubsystemSUID)
        requires
            position < self@.registered.len(),
        ensures
            suid == self@.registered[position as int],
    {
        self.registered[position]
    }

    /// The number of conditional schedulers.
    pub(crate) fn condition_count(&self) -> (count: usize)
        ensures
            count == self@.conditions.len(),
    {
        self.cond_schedulers.len()
    }

    /// Polls the conditional scheduler number `position`.
    pub(crate) fn poll_condition(&mut self, position: usize) -> (fired: Option<CommandIndex>)
        requires
            position < old(self)@.conditions.len(),
        ensures
            exists|sample: bool|
                {
                    &&& old(self)@.conditions[position as int].may_sample(sample)
                    &&& final(self)@ == (SchedulerState {
                        conditions: old(self)@.conditions.update(
                            position as int,
                            #[trigger] old(self)@.conditions[position as int].after_sample(sample),
                        ),
                        ..old(self)@
                    })
                    &&& fired == old(self)@.conditions[position as int].yields(sample)
                },
    {
        let fired = self.cond_schedulers[position].poll();
        proof {
            let sample = choose|sample: bool|
                old(self)@.conditions[position as int].may_sample(sample)
                    && self@.conditions[position as int] == #[trigger] old(
                    self,
                )@.conditions[position as int].after_sample(sample) && fired == old(
                    self,
                )@.conditions[position as int].yields(sample);
            let target = SchedulerState {
                conditions: old(self)@.conditions.update(
                    position as int,
                    old(self)@.conditions[position as int].after_sample(sample),
                ),
                ..old(self)@
            };
            assert(self@.slots =~= target.slots);
            assert(self@.conditions =~= target.conditions);
        }
        fired
    }

    /// Notes that `calls` have been made on the command under `index`.
    pub(crate) fn log(&mut self, index: CommandIndex, calls: Ghost<Seq<HookCall>>)
        ensures
            final(self)@ == old(self)@.logged(index, calls@),
    {
        self.history = Ghost(self.history@ + events_of(index, calls@));
        proof {
            assert(self@.slots =~= old(self)@.slots);
        }
    }

    /// Starts the visits of a tick: tells how long ago the visits of the
    /// previous tick started, which is no time on the first tick, and notes
    /// the time.
    pub(crate) fn start_tick(&mut self) -> (elapsed: Duration)
        ensures
            final(self)@ == old(self)@,
            final(self).has_ticked(),
            !old(self).has_ticked() ==> duration_nanos(elapsed) == 0,
    {
        let elapsed = elapsed_since(&self.last_run);
        self.last_run = Some(instant_now());
        proof {
            assert(self@.slots =~= old(self)@.slots);
        }
        elapsed
    }

    /// Runs the periodic hook of every registered subsystem, in order of
    /// registration. A hook is handed the time since it last ran, or no
    /// time if it never ran.
    pub(crate) fn run_subsystem_hooks(&mut self) -> (periods: Ghost<Seq<Duration>>)
        requires
            old(self)@.wf(),
        ensures
            old(self)@.periods_fit(periods@),
            final(self)@ == old(self)@.subsystems_run(periods@),
    {
        let ghost mut periods: Seq<Duration> = Seq::empty();
        let count = self.registered.len();
        let mut i: usize = 0;
        while i < count
            invariant
                i <= count,
                count == self@.registered.len(),
                count == self.subsystems@.len(),
                count == old(self)@.hooks.len(),
                periods.len() == i,
                forall|j: int|
                    0 <= j < i && !old(self)@.hooks[j] ==> duration_nanos(#[trigger] periods[j])
                        == 0,
                forall|j: int|
                    0 <= j < count ==> #[trigger] self@.hooks[j] == (j < i || old(self)@.hooks[j]),
                self@ == (SchedulerState {
                    subsystem_runs: old(self)@.subsystem_runs + old(self)@.round(periods),
                    hooks: self@.hooks,
                    ..old(self)@
                }),
            decreases count - i,
        {
            let ghost seen = periods;
            let ghost flags = self@.hooks;
            proof {
                assert(flags[i as int] == old(self)@.hooks[i as int]);
                assert(flags[i as int] == (self.subsystems@[i as int].last_run is Some));
            }
            let elapsed = elapsed_since(&self.subsystems[i].last_run);
            self.subsystems[i].periodic.on_periodic(elapsed);
            self.subsystems[i].last_run = Some(instant_now());
            proof {
                periods = seen.push(elapsed);
                assert forall|j: int| 0 <= j < i + 1 && !old(self)@.hooks[j] implies duration_nanos(
                    #[trigger] periods[j],
                ) == 0 by {
                    if j < i {
                        assert(periods[j] == seen[j]);
                    }
                }
            }
            self.subsystem_runs = Ghost(
                self.subsystem_runs@.push(
                    SubsystemRun { suid: self.registered@[i as int], period: elapsed },
                ),
            );
            proof {
                assert(self@.hooks.len() == count);
                assert forall|j: int| 0 <= j < count implies #[trigger] self@.hooks[j] == (j < i + 1
                    || old(self)@.hooks[j]) by {
                    assert(flags[j] == (j < i || old(self)@.hooks[j]));
                }
                let target = SchedulerState {
                    subsystem_runs: old(self)@.subsystem_runs + old(self)@.round(periods),
                    hooks: self@.hooks,
                    ..old(self)@
                };
                assert(self@.slots =~= target.slots);
                assert(old(self)@.round(periods) =~= old(self)@.round(seen).push(
                    SubsystemRun { suid: old(self)@.registered[i as int], period: elapsed },
                ));
                assert(self@.subsystem_runs =~= target.subsystem_runs);
            }
            i += 1;
        }
        proof {
            assert(self@.hooks =~= old(self)@.subsystems_run(periods).hooks);
        }
        Ghost(periods)
    }
}

/// The time handed to a periodic hook: the time since the hook last ran, or
/// nothing if it never ran.
pub fn elapsed_since(last_run: &Option<Instant>) -> (elapsed: Duration)
    ensures
        last_run is None ==> duration_nanos(elapsed) == 0,
{
    match last_run {
        Some(instant) => instant_elapsed(instant),
        None => duration_from_secs(0),
    }
}

} // verus!
