//! A cooperative command scheduler for periodic control loops.
//!
//! Clients compose short-lived behaviours, the *commands*, out of lifecycle
//! hooks, say which shared resources, the *subsystems*, each behaviour needs,
//! and hand them to a [`CommandManager`] that an outer loop drives by calling
//! `run` once per cycle.
//!
//! The scheduler is single-threaded and cooperative: a hook runs until it
//! returns, and at most one command owns a subsystem at any time.
//!
//! ```text
//! let mut context = SchedulerContext::new();
//! let mut manager = CommandManager::new(&mut context);
//!
//! CommandBuilder::new()
//!     .init(|| println!("Init"))
//!     .periodic(|_period| println!("Periodic"))
//!     .build()
//!     .timeout(Duration::from_secs(1))
//!     .schedule(&mut context);
//!
//! loop {
//!     manager.run(&mut context);
//! }
//! ```
//!
//! # What is proved
//!
//! The library is verified with Verus. The commands ([`commands`],
//! [`leaves`], [`builder`]) carry their lifecycle in their contracts: a
//! hook can be called only in the state in which the lifecycle allows it,
//! and its contract says which calls it passes on, to which child, with
//! which period or flag.
//! The scheduler ([`manager`], [`admission`], [`tick`]) is proved to compute
//! the functions of a state machine ([`state`], [`transitions`]) that keeps
//! its invariant ([`upkeep`]); what follows for clients is stated in
//! [`laws`].
//!
//! Client code is outside the proofs. The hooks of a command, the
//! predicates of a condition and the handles of subsystems may do anything;
//! the contracts say what the library does around them. The few functions
//! that call into the standard library or `fxhash` without proof are marked
//! *Trusted* where they are defined ([`hooks`], [`time`], [`owners`],
//! [`subsystem`], and the supplier of a proxy in [`commands`]).

pub mod admission;
pub mod builder;
pub mod commands;
pub mod conditions;
pub mod context;
pub mod conversions;
pub mod history;
pub mod hooks;
pub mod laws;
pub mod leaves;
pub mod manager;
pub mod owners;
pub mod requirement;
pub mod state;
pub mod subsystem;
pub mod tick;
pub mod time;
pub mod transitions;
pub mod upkeep;

pub use builder::CommandBuilder;
pub use commands::{
    Command, ExtraRequirementsCommand, NamedCommand, ParallelCommand, ProxyCommand,
    SequentialCommand,
};
pub use conditions::{BooleanSupplier, Condition, ConditionalScheduler, Edge};
pub use context::{add_cond_scheduler, schedule, SchedulerContext, WrongThreadError};
pub use leaves::{
    CommandTrait, ConstCommand, ConstHooks, CustomCommand, LifecycleCall, SimpleCommand,
    WaitCommand,
};
pub use manager::{CommandManager, CommandManagerError};
pub use requirement::{Requirement, Requirements, SubsystemRequirement, SubsystemSUID};
pub use history::{Event, HookCall};
pub use state::{CommandIndex, SchedulerState, Slot};
pub use transitions::Visit;
pub use subsystem::Subsystem;
