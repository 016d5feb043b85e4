//! Conversions into [`Command`]: each kind of command is a command, and so
//! is a builder's product.

use vstd::prelude::*;
use vstd::std_specs::convert::FromSpecImpl;

use crate::builder::CommandBuilder;
use crate::commands::{
    Command, ExtraRequirementsCommand, NamedCommand, ParallelCommand, ProxyCommand,
    SequentialCommand,
};
use crate::leaves::{CommandTrait, ConstCommand, CustomCommand, SimpleCommand, WaitCommand};

verus! {

impl From<SimpleCommand> for Command {
    fn from(command: SimpleCommand) -> (converted: Self) {
        Command::Simple(command)
    }
}

impl FromSpecImpl<SimpleCommand> for Command {
    open spec fn obeys_from_spec() -> bool {
        true
    }

    open spec fn from_spec(command: SimpleCommand) -> Self {
        Command::Simple(command)
    }
}

impl From<ConstCommand> for Command {
    fn from(command: ConstCommand) -> (converted: Self) {
        Command::Const(command)
    }
}

impl FromSpecImpl<ConstCommand> for Command {
    open spec fn obeys_from_spec() -> bool {
        true
    }

    open spec fn from_spec(command: ConstCommand) -> Self {
        Command::Const(command)
    }
}

impl From<ParallelCommand> for Command {
    fn from(command: ParallelCommand) -> (converted: Self) {
        Command::Parallel(command)
    }
}

impl FromSpecImpl<ParallelCommand> for Command {
    open spec fn obeys_from_spec() -> bool {
        true
    }

    open spec fn from_spec(command: ParallelCommand) -> Self {
        Command::Parallel(command)
    }
}

impl From<SequentialCommand> for Command {
    fn from(command: SequentialCommand) -> (converted: Self) {
        Command::Sequential(command)
    }
}

impl FromSpecImpl<SequentialCommand> for Command {
    open spec fn obeys_from_spec() -> bool {
        true
    }

    open spec fn from_spec(command: SequentialCommand) -> Self {
        Command::Sequential(command)
    }
}

impl From<WaitCommand> for Command {
    fn from(command: WaitCommand) -> (converted: Self) {
        Command::Wait(command)
    }
}

impl FromSpecImpl<WaitCommand> for Command {
    open spec fn obeys_from_spec() -> bool {
        true
    }

    open spec fn from_spec(command: WaitCommand) -> Self {
        Command::Wait(command)
    }
}

impl From<ProxyCommand> for Command {
    fn from(command: ProxyCommand) -> (converted: Self) {
        Command::Proxy(command)
    }
}

impl FromSpecImpl<ProxyCommand> for Command {
    open spec fn obeys_from_spec() -> bool {
        true
    }

    open spec fn from_spec(command: ProxyCommand) -> Self {
        Command::Proxy(command)
    }
}

impl From<NamedCommand> for Command {
    fn from(command: NamedCommand) -> (converted: Self) {
        Command::Named(command)
    }
}

impl FromSpecImpl<NamedCommand> for Command {
    open spec fn obeys_from_spec() -> bool {
        true
    }

    open spec fn from_spec(command: NamedCommand) -> Self {
        Command::Named(command)
    }
}

impl From<ExtraRequirementsCommand> for Command {
    fn from(command: ExtraRequirementsCommand) -> (converted: Self) {
        Command::ExtraRequirments(command)
    }
}

impl FromSpecImpl<ExtraRequirementsCommand> for Command {
    open spec fn obeys_from_spec() -> bool {
        true
    }

    open spec fn from_spec(command: ExtraRequirementsCommand) -> Self {
        Command::ExtraRequirments(command)
    }
}

impl From<CustomCommand> for Command {
    fn from(command: CustomCommand) -> (converted: Self) {
        Command::Custom(command)
    }
}

impl FromSpecImpl<CustomCommand> for Command {
    open spec fn obeys_from_spec() -> bool {
        true
    }

    open spec fn from_spec(command: CustomCommand) -> Self {
        Command::Custom(command)
    }
}


impl From<CommandBuilder> for Command {
    fn from(builder: CommandBuilder) -> (converted: Self) {
        builder.build()
    }
}

impl FromSpecImpl<CommandBuilder> for Command {
    open spec fn obeys_from_spec() -> bool {
        true
    }

    open spec fn from_spec(builder: CommandBuilder) -> Self {
        builder.built()
    }
}

impl From<Box<dyn CommandTrait>> for Command {
    /// Wraps the implementation as [`Command::custom`] does.
    fn from(command: Box<dyn CommandTrait>) -> (converted: Self) {
        Command::custom(command)
    }
}

impl FromSpecImpl<Box<dyn CommandTrait>> for Command {
    /// What the wrapped command declares is asked of the implementation, so
    /// the result is no function of the argument.
    open spec fn obeys_from_spec() -> bool {
        false
    }

    open spec fn from_spec(command: Box<dyn CommandTrait>) -> Self {
        arbitrary()
    }
}

} // verus!
