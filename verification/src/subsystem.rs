//! Subsystems: the shared resources that commands take turns with.

use std::time::Duration;
use vstd::prelude::*;

use crate::commands::Command;
use crate::requirement::SubsystemSUID;

verus! {

/// Trusted: `fxhash::hash` of a name. Nothing is claimed of the hash that
/// comes back: it depends on the width and byte order of the machine.
#[verifier::external_body]
pub(crate) fn suid_of_name(name: &str) -> SubsystemSUID {
    fxhash::hash(name) as u64
}

/// A shared resource, written by the client.
pub trait Subsystem {
    /// The name of the subsystem, mainly used for logging. It also has to be
    /// unique, because the identifier is derived from it.
    fn name(&self) -> &'static str;

    /// Constructs the subsystem, called when the subsystem is registered.
    fn construct() -> Self where Self: Sized;

    /// Called every cycle by the scheduler.
    fn periodic(&self, _period: Duration) {
    }

    /// The default command for the subsystem, if any. It runs whenever no
    /// other command owns the subsystem.
    fn default_command(&mut self) -> Option<Command> {
        None
    }

    /// Called every cycle by the scheduler, after
    /// [`periodic`](Subsystem::periodic).
    fn log(&self) {
    }

    /// The identifier of the subsystem: a hash of its name.
    fn suid(&self) -> SubsystemSUID {
        suid_of_name(self.name())
    }
}

} // verus!
