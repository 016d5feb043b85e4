//! What the scheduler knows.
//!
//! [`SchedulerState`] is the scheduler as plain mathematics: which places
//! hold which commands, who owns which subsystem, what is noted about each
//! command, and which hooks have been called so far. The executable
//! scheduler has a `SchedulerState` as its view.
//!
//! This module defines the state and its invariant. How the state changes
//! is defined in [`crate::transitions`]; that the changes keep the
//! invariant is proved in [`crate::upkeep`]; what follows for clients
//! is stated in [`crate::laws`].

use std::time::Duration;
use vstd::prelude::*;

use crate::commands::Command;
use crate::conditions::ConditionalScheduler;
use crate::history::{ordered, started, Event};
use crate::requirement::SubsystemSUID;

verus! {

/// A handle on a command held by the scheduler.
///
/// The three kinds name three arenas. A handle stays valid while other slots
/// are filled and emptied.
#[derive(Debug, Clone, Copy, PartialEq, Eq, Hash, Structural)]
pub enum CommandIndex {
    /// The default command of a subsystem; lives as long as the subsystem.
    DefaultCommand(usize),
    /// An ordinary scheduled command; its slot is freed when it ends.
    Command(usize),
    /// A command kept by a conditional scheduler; its slot survives its end.
    PreservedCommand(usize),
}

impl CommandIndex {
    /// Whether the handle names a subsystem default.
    pub open spec fn is_default(&self) -> bool {
        self is DefaultCommand
    }

    /// Whether the handle names a subsystem default.
    pub fn names_default(&self) -> (default: bool)
        ensures
            default == self.is_default(),
    {
        match self {
            CommandIndex::DefaultCommand(_) => true,
            _ => false,
        }
    }
}

/// One place in an arena: a command, if the place is taken, and what the
/// scheduler has noted about it.
pub struct Slot {
    /// The command, if the place is taken.
    pub command: Option<Command>,
    /// Whether the next visit is to end the command as interrupted; `None`
    /// while the scheduler does not track the command.
    pub interrupt: Option<bool>,
    /// Whether `init` has run and `end` has not.
    pub initialized: bool,
    /// Whether the command runs without owning a subsystem.
    pub orphaned: bool,
}

impl Slot {
    /// A place that holds nothing.
    pub open spec fn is_vacant(&self) -> bool {
        &&& self.command is None
        &&& self.interrupt is None
        &&& !self.initialized
        &&& !self.orphaned
    }

    /// The place of a command that has just been added: tracked, not
    /// interrupted, not initialised.
    pub open spec fn fresh(command: Option<Command>) -> Slot {
        Slot { command, interrupt: Some(false), initialized: false, orphaned: false }
    }

    /// The same place holding `command`.
    pub open spec fn holding(self, command: Command) -> Slot {
        Slot { command: Some(command), ..self }
    }

    /// The same place with the interruption mark set to `mark`.
    pub open spec fn marked(self, mark: bool) -> Slot {
        Slot { interrupt: Some(mark), ..self }
    }

    /// What is left in the place of a command that has ended: nothing if it
    /// was an ordinary command; the command itself, no longer tracked, if
    /// its place outlives it.
    pub open spec fn reaped(self, index: CommandIndex) -> Slot {
        Slot {
            command: if index is Command {
                None
            } else {
                self.command
            },
            interrupt: None,
            initialized: false,
            orphaned: false,
        }
    }
}

/// One call of the periodic hook of a subsystem: the subsystem, and the
/// period that the hook was handed.
pub struct SubsystemRun {
    pub suid: SubsystemSUID,
    pub period: Duration,
}

/// What the scheduler knows.
pub struct SchedulerState {
    /// The places of the three arenas.
    pub slots: Map<CommandIndex, Slot>,
    /// The owner of each subsystem that has one.
    pub owners: Map<SubsystemSUID, CommandIndex>,
    /// The default command of each registered subsystem.
    pub defaults: Map<SubsystemSUID, CommandIndex>,
    /// The identifiers of the registered subsystems, in order of registration.
    pub registered: Seq<SubsystemSUID>,
    /// The conditional schedulers, in order of registration.
    pub conditions: Seq<ConditionalScheduler>,
    /// Every hook that the scheduler has called on a command it holds,
    /// oldest first.
    pub history: Seq<Event>,
    /// For each subsystem hook that the scheduler holds, in order of
    /// registration, whether it has run.
    pub hooks: Seq<bool>,
    /// The calls that the scheduler has made of the periodic hooks of the
    /// subsystems, oldest first.
    pub subsystem_runs: Seq<SubsystemRun>,
}

impl SchedulerState {
    /// Whether `index` names a place of its arena.
    pub open spec fn in_range(self, index: CommandIndex) -> bool {
        self.slots.contains_key(index)
    }

    /// The place that `index` names.
    pub open spec fn slot(self, index: CommandIndex) -> Slot {
        self.slots[index]
    }

    /// Whether a command is held under `index`.
    pub open spec fn holds(self, index: CommandIndex) -> bool {
        self.in_range(index) && self.slot(index).command is Some
    }

    /// The command held under `index`.
    pub open spec fn command_at(self, index: CommandIndex) -> Command {
        self.slot(index).command->0
    }

    /// The subsystems that the command under `index` declares.
    pub open spec fn needs(self, index: CommandIndex) -> Set<SubsystemSUID> {
        self.command_at(index).requirement_set()
    }

    /// For each command that the scheduler tracks, whether its next visit is
    /// to end it as interrupted.
    pub open spec fn interrupt_state(self) -> Map<CommandIndex, bool> {
        Map::new(
            |index: CommandIndex| self.in_range(index) && self.slot(index).interrupt is Some,
            |index: CommandIndex| self.slot(index).interrupt->0,
        )
    }

    /// The commands whose `init` has run and whose `end` has not.
    pub open spec fn initialized(self) -> Set<CommandIndex> {
        Set::new(|index: CommandIndex| self.in_range(index) && self.slot(index).initialized)
    }

    /// The running commands that own no subsystem and could not be found
    /// through the table of owners.
    pub open spec fn orphaned(self) -> Set<CommandIndex> {
        Set::new(|index: CommandIndex| self.in_range(index) && self.slot(index).orphaned)
    }

    /// Whether `index` is marked to be ended as interrupted.
    pub open spec fn flagged(self, index: CommandIndex) -> bool {
        self.in_range(index) && self.slot(index).interrupt == Some(true)
    }

    /// Whether `index` owns a subsystem.
    pub open spec fn owns_some(self, index: CommandIndex) -> bool {
        exists|suid: SubsystemSUID| self.owners.contains_pair(suid, index)
    }

    /// The commands that a tick visits: the owners, the orphans, and the
    /// commands marked to be ended.
    pub open spec fn is_active(self, index: CommandIndex) -> bool {
        self.in_range(index) && (self.owns_some(index) || self.slot(index).orphaned
            || self.flagged(index))
    }

    /// Whether the scheduler tracks a command under `index`.
    pub open spec fn watched(self, index: CommandIndex) -> bool {
        self.holds(index) && self.slot(index).interrupt is Some
    }

    /// What is noted about a place is consistent with what the place holds.
    pub open spec fn slot_consistent(self, index: CommandIndex) -> bool {
        let slot = self.slot(index);
        &&& slot.initialized ==> slot.command is Some && slot.interrupt is Some
            && slot.command->0.ready()
        &&& slot.orphaned ==> slot.command is Some && slot.interrupt is Some && !index.is_default()
            && slot.command->0.requirement_set() == Set::<SubsystemSUID>::empty()
        &&& slot.interrupt == Some(true) ==> slot.command is Some && !index.is_default()
        &&& index is Command ==> (slot.command is Some <==> slot.interrupt is Some)
        &&& index is PreservedCommand ==> slot.command is Some
    }

    /// The entry of the table of owners for `suid` is justified: the owner is
    /// tracked, and either is the default of `suid` or requires `suid`.
    pub open spec fn owner_consistent(self, suid: SubsystemSUID) -> bool {
        let owner = self.owners[suid];
        &&& self.in_range(owner)
        &&& self.slot(owner).interrupt is Some
        &&& if owner.is_default() {
            self.defaults.contains_pair(suid, owner)
        } else {
            self.holds(owner) && self.needs(owner).contains(suid)
        }
    }

    /// Every registered subsystem has its default place, and the other way
    /// round.
    pub open spec fn registry_wf(self) -> bool {
        &&& self.hooks.len() == self.registered.len()
        &&& forall|i: usize| #[trigger]
            self.in_range(CommandIndex::DefaultCommand(i)) <==> i < self.registered.len()
        &&& forall|i: int|
            0 <= i < self.registered.len() ==> self.defaults.contains_pair(
                #[trigger] self.registered[i],
                CommandIndex::DefaultCommand(i as usize),
            )
        &&& forall|suid: SubsystemSUID| #[trigger]
            self.defaults.contains_key(suid) ==> {
                &&& self.defaults[suid] is DefaultCommand
                &&& self.in_range(self.defaults[suid])
                &&& self.registered[self.defaults[suid]->DefaultCommand_0 as int] == suid
            }
    }

    /// Every place is consistent.
    pub open spec fn places_wf(self) -> bool {
        forall|index: CommandIndex| self.in_range(index) ==> #[trigger] self.slot_consistent(index)
    }

    /// Every entry of the table of owners is justified.
    pub open spec fn owners_wf(self) -> bool {
        forall|suid: SubsystemSUID|
            self.owners.contains_key(suid) ==> #[trigger] self.owner_consistent(suid)
    }

    /// Every conditional scheduler has handed over its command and holds the
    /// handle of a preserved place.
    pub open spec fn conditions_wf(self) -> bool {
        forall|k: int|
            0 <= k < self.conditions.len() ==> {
                &&& (#[trigger] self.conditions[k]).held_command() is None
                &&& self.conditions[k].handle() matches Some(handle)
                &&& handle is PreservedCommand
                &&& self.in_range(handle)
            }
    }

    /// A scheduled command that owns a subsystem and is not marked to be
    /// interrupted owns every subsystem it requires.
    pub open spec fn claims_honoured(self, index: CommandIndex) -> bool {
        !index.is_default() && self.slot(index).interrupt == Some(false) && self.owns_some(index)
            ==> forall|suid: SubsystemSUID| #[trigger]
            self.needs(index).contains(suid) ==> self.owners.contains_pair(suid, index)
    }

    /// Ownership is exclusive: see [`Self::claims_honoured`].
    pub open spec fn exclusive_wf(self) -> bool {
        forall|index: CommandIndex| self.in_range(index) ==> #[trigger] self.claims_honoured(index)
    }

    /// What is noted about the command under `index` agrees with the
    /// hooks that have been called on it: it is noted as initialised exactly
    /// if `init` has been called and `end` has not been called since.
    pub open spec fn history_agrees(self, index: CommandIndex) -> bool {
        started(self.history, index) <==> self.in_range(index) && self.slot(index).initialized
    }

    /// The notes agree with the history for every command.
    pub open spec fn history_wf(self) -> bool {
        forall|index: CommandIndex| #[trigger] self.history_agrees(index)
    }

    /// The invariant of the scheduler.
    pub open spec fn wf(self) -> bool {
        &&& self.registry_wf()
        &&& self.places_wf()
        &&& self.owners_wf()
        &&& self.conditions_wf()
        &&& self.exclusive_wf()
        &&& self.history_wf()
        &&& ordered(self.history)
    }

    /// The state of a scheduler that holds nothing.
    pub open spec fn empty() -> Self {
        SchedulerState {
            slots: Map::empty(),
            owners: Map::empty(),
            defaults: Map::empty(),
            registered: Seq::empty(),
            conditions: Seq::empty(),
            history: Seq::empty(),
            hooks: Seq::empty(),
            subsystem_runs: Seq::empty(),
        }
    }
}

} // verus!
