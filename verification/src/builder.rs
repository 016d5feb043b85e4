//! The builder for commands made of closures.
//!
//! ```text
//! CommandBuilder::new()
//!     .init(|| println!("Init"))
//!     .periodic(|period| println!("Periodic: {:?}", period))
//!     .end(|interrupted| println!("End: {}", interrupted))
//!     .is_finished(|| true)
//!     .build()
//! ```

use std::time::Duration;
use vstd::prelude::*;

use crate::commands::Command;
use crate::leaves::{LifecycleCall, SimpleCommand};
use crate::hooks::{
    is_end_of, is_finish_of, is_init_of, is_periodic_of, EndHook, FinishedHook, InitHook,
    PeriodicHook,
};
use crate::requirement::{suids_of, Requirement, Requirements, SubsystemSUID};

verus! {

/// A builder for creating commands. Each setter hands the builder back, so
/// calls can be chained.
pub struct CommandBuilder {
    init: Option<Box<dyn InitHook>>,
    periodic: Option<Box<dyn PeriodicHook>>,
    end: Option<Box<dyn EndHook>>,
    is_finished: Option<Box<dyn FinishedHook>>,
    requirements: Vec<SubsystemSUID>,
}

/// Which hooks a command made of closures has, and how many requirements.
pub struct Outline {
    pub init: bool,
    pub periodic: bool,
    pub end: bool,
    pub is_finished: bool,
    pub requirements: Seq<SubsystemSUID>,
}

impl Command {
    /// The outline of a command made of closures.
    pub open spec fn outline(&self) -> Outline
        recommends
            self is Simple,
    {
        let simple = self->Simple_0;
        Outline {
            init: simple.has_init(),
            periodic: simple.has_periodic(),
            end: simple.has_end(),
            is_finished: simple.has_is_finished(),
            requirements: simple.requirement_list(),
        }
    }

    /// Whether the command is made of closures, with exactly the hooks
    /// named and with `count` requirements.
    pub open spec fn is_simple_with(
        &self,
        init: bool,
        periodic: bool,
        end: bool,
        is_finished: bool,
        count: nat,
    ) -> bool {
        &&& self is Simple
        &&& self.outline().init == init
        &&& self.outline().periodic == periodic
        &&& self.outline().end == end
        &&& self.outline().is_finished == is_finished
        &&& self.outline().requirements.len() == count
    }
}

impl CommandBuilder {
    /// What the builder has been given so far.
    pub closed spec fn outline(&self) -> Outline {
        Outline {
            init: self.init is Some,
            periodic: self.periodic is Some,
            end: self.end is Some,
            is_finished: self.is_finished is Some,
            requirements: self.requirements@,
        }
    }

    /// The `init` hook that the builder holds, if one was given.
    pub closed spec fn init_hook(&self) -> Option<Box<dyn InitHook>> {
        self.init
    }

    /// The `periodic` hook that the builder holds, if one was given.
    pub closed spec fn periodic_hook(&self) -> Option<Box<dyn PeriodicHook>> {
        self.periodic
    }

    /// The `end` hook that the builder holds, if one was given.
    pub closed spec fn end_hook(&self) -> Option<Box<dyn EndHook>> {
        self.end
    }

    /// The finish predicate that the builder holds, if one was given.
    pub closed spec fn finish_hook(&self) -> Option<Box<dyn FinishedHook>> {
        self.is_finished
    }

    /// Whether the builder holds the very hooks that `other` holds.
    pub open spec fn same_hooks(&self, other: &Self) -> bool {
        &&& self.init_hook() == other.init_hook()
        &&& self.periodic_hook() == other.periodic_hook()
        &&& self.end_hook() == other.end_hook()
        &&& self.finish_hook() == other.finish_hook()
    }

    /// Creates a new command builder with no requirements and no functions.
    #[must_use]
    pub fn new() -> (builder: Self)
        ensures
            builder.outline() == (Outline {
                init: false,
                periodic: false,
                end: false,
                is_finished: false,
                requirements: Seq::empty(),
            }),
    {
        CommandBuilder {
            init: None,
            periodic: None,
            end: None,
            is_finished: None,
            requirements: Vec::new(),
        }
    }

    /// Defines the `init` function for this command.
    #[must_use]
    pub fn init(self, init: impl FnMut() + 'static) -> (builder: Self)
        ensures
            builder.outline() == (Outline { init: true, ..self.outline() }),
            is_init_of(builder.init_hook(), init),
            builder.periodic_hook() == self.periodic_hook(),
            builder.end_hook() == self.end_hook(),
            builder.finish_hook() == self.finish_hook(),
    {
        let mut builder = self;
        let hook: Box<dyn InitHook> = Box::new(init);
        let set = Some(hook);
        builder.init = set;
        builder
    }

    /// Defines the `periodic` function for this command.
    #[must_use]
    pub fn periodic(self, periodic: impl FnMut(Duration) + 'static) -> (builder: Self)
        ensures
            builder.outline() == (Outline { periodic: true, ..self.outline() }),
            is_periodic_of(builder.periodic_hook(), periodic),
            builder.init_hook() == self.init_hook(),
            builder.end_hook() == self.end_hook(),
            builder.finish_hook() == self.finish_hook(),
    {
        let mut builder = self;
        let hook: Box<dyn PeriodicHook> = Box::new(periodic);
        let set = Some(hook);
        builder.periodic = set;
        builder
    }

    /// Defines the `end` function for this command.
    #[must_use]
    pub fn end(self, end: impl FnMut(bool) + 'static) -> (builder: Self)
        ensures
            builder.outline() == (Outline { end: true, ..self.outline() }),
            is_end_of(builder.end_hook(), end),
            builder.init_hook() == self.init_hook(),
            builder.periodic_hook() == self.periodic_hook(),
            builder.finish_hook() == self.finish_hook(),
    {
        let mut builder = self;
        let hook: Box<dyn EndHook> = Box::new(end);
        let set = Some(hook);
        builder.end = set;
        builder
    }

    /// Defines the `is_finished` function for this command.
    #[must_use]
    pub fn is_finished(self, is_finished: impl FnMut() -> bool + 'static) -> (builder: Self)
        ensures
            builder.outline() == (Outline { is_finished: true, ..self.outline() }),
            is_finish_of(builder.finish_hook(), is_finished),
            builder.init_hook() == self.init_hook(),
            builder.periodic_hook() == self.periodic_hook(),
            builder.end_hook() == self.end_hook(),
    {
        let mut builder = self;
        let hook: Box<dyn FinishedHook> = Box::new(is_finished);
        let set = Some(hook);
        builder.is_finished = set;
        builder
    }

    /// Adds the subsystem with the identifier `suid` to the requirements.
    #[must_use]
    pub fn with_suid(self, suid: SubsystemSUID) -> (builder: Self)
        ensures
            builder.outline() == (Outline {
                requirements: self.outline().requirements.push(suid),
                ..self.outline()
            }),
            builder.same_hooks(&self),
    {
        let mut builder = self;
        builder.requirements.push(suid);
        builder
    }

    /// Adds the subsystems with the identifiers `suids` to the requirements.
    #[must_use]
    pub fn with_suids(self, suids: Vec<SubsystemSUID>) -> (builder: Self)
        ensures
            builder.outline() == (Outline {
                requirements: self.outline().requirements + suids@,
                ..self.outline()
            }),
            builder.same_hooks(&self),
    {
        let mut builder = self;
        let mut suids = suids;
        builder.requirements.append(&mut suids);
        builder
    }

    /// Adds `subsystem`, asked for its identifier, to the requirements.
    #[must_use]
    pub fn with_subsystem(self, subsystem: Requirement) -> (builder: Self)
        ensures
            exists|suid: SubsystemSUID|
                #![trigger self.outline().requirements.push(suid)]
                builder.outline() == (Outline {
                    requirements: self.outline().requirements.push(suid),
                    ..self.outline()
                }),
            builder.same_hooks(&self),
    {
        let suid = subsystem.suid();
        self.with_suid(suid)
    }

    /// Adds `subsystems`, each asked for its identifier, to the
    /// requirements.
    #[must_use]
    pub fn with_subsystems(self, subsystems: Requirements) -> (builder: Self)
        ensures
            exists|suids: Seq<SubsystemSUID>|
                #![trigger self.outline().requirements + suids]
                suids.len() == subsystems@.len() && builder.outline() == (Outline {
                    requirements: self.outline().requirements + suids,
                    ..self.outline()
                }),
            builder.same_hooks(&self),
    {
        let suids = suids_of(subsystems);
        self.with_suids(suids)
    }

    /// The command that the builder builds.
    pub closed spec fn built(self) -> Command {
        Command::Simple(
            SimpleCommand {
                init: self.init,
                periodic: self.periodic,
                end: self.end,
                is_finished: self.is_finished,
                requirements: self.requirements,
                calls: Ghost(Seq::empty()),
            },
        )
    }

    /// Builds the command. This consumes the builder.
    pub fn build(self) -> (command: Command)
        ensures
            command == self.built(),
            command is Simple,
            command.outline() == self.outline(),
            command.calls() == Seq::<LifecycleCall>::empty(),
            command->Simple_0.init_hook() == self.init_hook(),
            command->Simple_0.periodic_hook() == self.periodic_hook(),
            command->Simple_0.end_hook() == self.end_hook(),
            command->Simple_0.finish_hook() == self.finish_hook(),
    {
        Command::Simple(
            SimpleCommand::assemble(
                self.init,
                self.periodic,
                self.end,
                self.is_finished,
                self.requirements,
            ),
        )
    }
}

/// Shorthands for commands with a given set of hooks.
impl CommandBuilder {
    /// A command with an `init` function only.
    pub fn init_only(init: impl FnMut() + 'static, subsystems: Requirements) -> (command: Command)
        ensures
            command.is_simple_with(true, false, false, false, subsystems@.len()),
            is_init_of(command->Simple_0.init_hook(), init),
    {
        Self::new().init(init).with_subsystems(subsystems).build()
    }

    /// A command with a `periodic` function only.
    pub fn periodic_only(
        periodic: impl FnMut(Duration) + 'static,
        subsystems: Requirements,
    ) -> (command: Command)
        ensures
            command.is_simple_with(false, true, false, false, subsystems@.len()),
            is_periodic_of(command->Simple_0.periodic_hook(), periodic),
    {
        Self::new().periodic(periodic).with_subsystems(subsystems).build()
    }

    /// A command with an `end` function only.
    pub fn end_only(end: impl FnMut(bool) + 'static, subsystems: Requirements) -> (command: Command)
        ensures
            command.is_simple_with(false, false, true, false, subsystems@.len()),
            is_end_of(command->Simple_0.end_hook(), end),
    {
        Self::new().end(end).with_subsystems(subsystems).build()
    }

    /// A command with an `init` and a `periodic` function.
    pub fn init_periodic(
        init: impl FnMut() + 'static,
        periodic: impl FnMut(Duration) + 'static,
        subsystems: Requirements,
    ) -> (command: Command)
        ensures
            command.is_simple_with(true, true, false, false, subsystems@.len()),
            is_init_of(command->Simple_0.init_hook(), init),
            is_periodic_of(command->Simple_0.periodic_hook(), periodic),
    {
        Self::new().init(init).periodic(periodic).with_subsystems(subsystems).build()
    }

    /// A command with a `periodic` and an `end` function.
    pub fn periodic_end(
        periodic: impl FnMut(Duration) + 'static,
        end: impl FnMut(bool) + 'static,
        subsystems: Requirements,
    ) -> (command: Command)
        ensures
            command.is_simple_with(false, true, true, false, subsystems@.len()),
            is_periodic_of(command->Simple_0.periodic_hook(), periodic),
            is_end_of(command->Simple_0.end_hook(), end),
    {
        Self::new().periodic(periodic).end(end).with_subsystems(subsystems).build()
    }

    /// A command with an `init` and an `end` function.
    pub fn init_end(
        init: impl FnMut() + 'static,
        end: impl FnMut(bool) + 'static,
        subsystems: Requirements,
    ) -> (command: Command)
        ensures
            command.is_simple_with(true, false, true, false, subsystems@.len()),
            is_init_of(command->Simple_0.init_hook(), init),
            is_end_of(command->Simple_0.end_hook(), end),
    {
        Self::new().init(init).end(end).with_subsystems(subsystems).build()
    }

    /// A command with an `init`, a `periodic` and an `end` function.
    pub fn init_periodic_end(
        init: impl FnMut() + 'static,
        periodic: impl FnMut(Duration) + 'static,
        end: impl FnMut(bool) + 'static,
        subsystems: Requirements,
    ) -> (command: Command)
        ensures
            command.is_simple_with(true, true, true, false, subsystems@.len()),
            is_init_of(command->Simple_0.init_hook(), init),
            is_periodic_of(command->Simple_0.periodic_hook(), periodic),
            is_end_of(command->Simple_0.end_hook(), end),
    {
        Self::new().init(init).periodic(periodic).end(end).with_subsystems(subsystems).build()
    }

    /// A command with a `periodic` function that runs until `is_finished`
    /// answers true.
    pub fn run_until(
        periodic: impl FnMut(Duration) + 'static,
        is_finished: impl FnMut() -> bool + 'static,
        subsystems: Requirements,
    ) -> (command: Command)
        ensures
            command.is_simple_with(false, true, false, true, subsystems@.len()),
            is_periodic_of(command->Simple_0.periodic_hook(), periodic),
            is_finish_of(command->Simple_0.finish_hook(), is_finished),
    {
        Self::new().is_finished(is_finished).periodic(periodic).with_subsystems(subsystems).build()
    }

    /// A command with a `periodic` and an `end` function that runs until
    /// `is_finished` answers true.
    pub fn periodic_end_until(
        is_finished: impl FnMut() -> bool + 'static,
        periodic: impl FnMut(Duration) + 'static,
        end: impl FnMut(bool) + 'static,
        subsystems: Requirements,
    ) -> (command: Command)
        ensures
            command.is_simple_with(false, true, true, true, subsystems@.len()),
            is_periodic_of(command->Simple_0.periodic_hook(), periodic),
            is_end_of(command->Simple_0.end_hook(), end),
            is_finish_of(command->Simple_0.finish_hook(), is_finished),
    {
        Self::new().is_finished(is_finished).periodic(periodic).end(end).with_subsystems(
            subsystems,
        ).build()
    }

    /// A command with an `init` function that runs until `is_finished`
    /// answers true.
    pub fn init_periodic_until(
        init: impl FnMut() + 'static,
        is_finished: impl FnMut() -> bool + 'static,
        subsystems: Requirements,
    ) -> (command: Command)
        ensures
            command.is_simple_with(true, false, false, true, subsystems@.len()),
            is_init_of(command->Simple_0.init_hook(), init),
            is_finish_of(command->Simple_0.finish_hook(), is_finished),
    {
        Self::new().init(init).is_finished(is_finished).with_subsystems(subsystems).build()
    }

    /// A command with all four functions.
    pub fn full(
        init: impl FnMut() + 'static,
        periodic: impl FnMut(Duration) + 'static,
        end: impl FnMut(bool) + 'static,
        is_finished: impl FnMut() -> bool + 'static,
        subsystems: Requirements,
    ) -> (command: Command)
        ensures
            command.is_simple_with(true, true, true, true, subsystems@.len()),
            is_init_of(command->Simple_0.init_hook(), init),
            is_periodic_of(command->Simple_0.periodic_hook(), periodic),
            is_end_of(command->Simple_0.end_hook(), end),
            is_finish_of(command->Simple_0.finish_hook(), is_finished),
    {
        Self::new().init(init).periodic(periodic).end(end).is_finished(is_finished).with_subsystems(
            subsystems,
        ).build()
    }
}


impl Command {
    /// Creates an empty command: an `init` function that does nothing, and
    /// no requirements.
    pub fn empty() -> (command: Self)
        ensures
            command.is_simple_with(true, false, false, false, 0),
            command.requirement_set() == Set::<SubsystemSUID>::empty(),
    {
        let command = CommandBuilder::new().init(|| {}).build();
        proof {
            assert(command.outline().requirements =~= Seq::<SubsystemSUID>::empty());
            assert(command.requirement_set() =~= Set::<SubsystemSUID>::empty());
        }
        command
    }
}

impl Default for Command {
    /// The empty command.
    fn default() -> (command: Self)
        ensures
            command.is_simple_with(true, false, false, false, 0),
    {
        Self::empty()
    }
}

} // verus!
