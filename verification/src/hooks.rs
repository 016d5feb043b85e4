//! Client callbacks.
//!
//! A command built from closures stores each lifecycle hook behind one of the
//! traits below. The scheduler treats a hook as a black box: it may do
//! anything to the state it captured, it may panic, and a predicate may answer
//! differently on every call. What the library proves is therefore stated
//! around the calls, never about them.
//!
//! Every `FnMut` closure of the right shape implements the matching trait. The
//! functions that actually run a closure are trusted: Verus does not look
//! inside client code.

use std::time::Duration;
use vstd::prelude::*;

verus! {

/// A hook run once when a command starts.
pub trait InitHook {
    fn on_init(&mut self);
}

/// A hook run every cycle with the time since the previous cycle.
pub trait PeriodicHook {
    fn on_periodic(&mut self, period: Duration);
}

/// A hook run once when a command stops; the flag tells whether it was cut
/// short.
pub trait EndHook {
    fn on_end(&mut self, interrupted: bool);
}

/// A predicate polled every cycle to learn whether a command is done.
pub trait FinishedHook {
    fn on_is_finished(&mut self) -> bool;
}

/// Trusted: `FnMut::call_mut` on a client closure that takes nothing and
/// returns nothing. Nothing is claimed of what the closure does.
#[verifier::external_body]
fn run_init_closure<F: FnMut()>(f: &mut F) {
    f()
}

/// Trusted: `FnMut::call_mut` on a client closure, handing it the elapsed
/// time. Nothing is claimed of what the closure does.
#[verifier::external_body]
fn run_periodic_closure<F: FnMut(Duration)>(f: &mut F, period: Duration) {
    f(period)
}

/// Trusted: `FnMut::call_mut` on a client closure, handing it the
/// interruption flag. Nothing is claimed of what the closure does.
#[verifier::external_body]
fn run_end_closure<F: FnMut(bool)>(f: &mut F, interrupted: bool) {
    f(interrupted)
}

/// Trusted: `FnMut::call_mut` on a client predicate. Nothing is claimed of
/// its answer.
#[verifier::external_body]
fn run_finished_closure<F: FnMut() -> bool>(f: &mut F) -> bool {
    f()
}

impl<F: FnMut()> InitHook for F {
    fn on_init(&mut self) {
        run_init_closure(self)
    }
}

impl<F: FnMut(Duration)> PeriodicHook for F {
    fn on_periodic(&mut self, period: Duration) {
        run_periodic_closure(self, period)
    }
}

impl<F: FnMut(bool)> EndHook for F {
    fn on_end(&mut self, interrupted: bool) {
        run_end_closure(self, interrupted)
    }
}

impl<F: FnMut() -> bool> FinishedHook for F {
    fn on_is_finished(&mut self) -> bool {
        run_finished_closure(self)
    }
}

/// Whether `hook` is the hook made of the closure `f`.
pub open spec fn is_init_of<F: FnMut() + 'static>(hook: Option<Box<dyn InitHook>>, f: F) -> bool {
    let made: Box<dyn InitHook> = Box::new(f);
    hook == Some(made)
}

/// Whether `hook` is the hook made of the closure `f`.
pub open spec fn is_periodic_of<F: FnMut(Duration) + 'static>(
    hook: Option<Box<dyn PeriodicHook>>,
    f: F,
) -> bool {
    let made: Box<dyn PeriodicHook> = Box::new(f);
    hook == Some(made)
}

/// Whether `hook` is the hook made of the closure `f`.
pub open spec fn is_end_of<F: FnMut(bool) + 'static>(hook: Option<Box<dyn EndHook>>, f: F) -> bool {
    let made: Box<dyn EndHook> = Box::new(f);
    hook == Some(made)
}

/// Whether `hook` is the finish predicate made of the closure `f`.
pub open spec fn is_finish_of<F: FnMut() -> bool + 'static>(
    hook: Option<Box<dyn FinishedHook>>,
    f: F,
) -> bool {
    let made: Box<dyn FinishedHook> = Box::new(f);
    hook == Some(made)
}

} // verus!
